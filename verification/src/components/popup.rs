//! The place and the wording of the question that is asked before a lesson
//! is deleted.

use vstd::prelude::*;

verus! {

/// What the question holds beside the name of the lesson and the choice
/// between `Y` and `n`.
#[derive(Clone, Copy, Debug, PartialEq, Eq)]
pub enum PopupBody {
    /// Nothing, on two lines.
    Short,
    /// Nothing, with an empty line before the choice.
    Plain,
    /// The number of the lessons that depend on the lesson.
    Counted,
    /// That number, and an empty line before the choice.
    CountedSpaced,
    /// The lessons that depend on the lesson, one on each line.
    Listed,
}

/// Where the question stands in the area, and how it is worded. The widths
/// add up to the width of the area.
#[derive(Clone, Copy, Debug, PartialEq, Eq)]
pub struct PopupPlan {
    pub padding_left: u16,
    pub popup_width: u16,
    pub padding_right: u16,
    pub padding_top: u16,
    pub popup_height: u16,
    pub padding_bottom: u16,
    pub body: PopupBody,
}

/// The smaller of two lengths.
pub open spec fn shorter(left: int, right: int) -> int {
    if left < right {
        left
    } else {
        right
    }
}

/// The plan of the question in an area `width` wide and `height` high, for
/// a line of `message` columns and `children` dependent lessons. There is a
/// plan in an area that is more than seven lines high.
///
/// The question is as wide as the line and its frame ask, or four columns
/// less wide than the area if that is less, and it stands in the middle.
/// It lists the dependent lessons if the area is high enough, and else
/// counts them, on as many lines as the area leaves.
pub open spec fn planned(width: int, height: int, message: int, children: int) -> Option<PopupPlan> {
    let popup_width = shorter(width - 4, 4 + message);
    let left = (width - popup_width) / 2;
    let top = (height - 5) / 2;
    let listed_top = (height - 6 - children) / 2;
    if height < 8 {
        None
    } else {
        Some(
            if height == 8 {
                PopupPlan {
                    padding_left: left as u16,
                    popup_width: popup_width as u16,
                    padding_right: (width - left - popup_width) as u16,
                    padding_top: 2,
                    popup_height: 4,
                    padding_bottom: 2,
                    body: PopupBody::Short,
                }
            } else if children == 0 || height == 9 {
                PopupPlan {
                    padding_left: left as u16,
                    popup_width: popup_width as u16,
                    padding_right: (width - left - popup_width) as u16,
                    padding_top: top as u16,
                    popup_height: 5,
                    padding_bottom: (height - 5 - top) as u16,
                    body: if children == 0 {
                        PopupBody::Plain
                    } else {
                        PopupBody::Counted
                    },
                }
            } else if height - 4 < 6 + children {
                PopupPlan {
                    padding_left: left as u16,
                    popup_width: popup_width as u16,
                    padding_right: (width - left - popup_width) as u16,
                    padding_top: top as u16,
                    popup_height: 6,
                    padding_bottom: (height - 5 - top) as u16,
                    body: PopupBody::CountedSpaced,
                }
            } else {
                PopupPlan {
                    padding_left: left as u16,
                    popup_width: popup_width as u16,
                    padding_right: (width - left - popup_width) as u16,
                    padding_top: listed_top as u16,
                    popup_height: (6 + children) as u16,
                    padding_bottom: (height - listed_top - 6 - children) as u16,
                    body: PopupBody::Listed,
                }
            },
        )
    }
}

/// The plan of the question that is asked before a lesson is deleted, in
/// an area `area_width` wide and `area_height` high, for a line of
/// `message_width` columns and `children` dependent lessons.
pub fn deletion_popup(area_width: u16, area_height: u16, message_width: u16, children: u16) -> (plan:
    Option<PopupPlan>)
    requires
        area_width >= 4,
        message_width <= u16::MAX - 4,
        children <= u16::MAX - 6,
    ensures
        plan == planned(area_width as int, area_height as int, message_width as int, children as int),
        plan matches Some(p) ==> p.padding_left + p.popup_width + p.padding_right == area_width,
{
    let num_cols_needed: u16 = 2 + 2 + message_width;
    let actual_width: u16 = area_width - 4;
    let popup_width: u16 = if actual_width < num_cols_needed {
        actual_width
    } else {
        num_cols_needed
    };
    let padding_left: u16 = (area_width - popup_width) / 2;
    let padding_right: u16 = area_width - padding_left - popup_width;
    if area_height < 4 {
        return None;
    }
    let actual_height: u16 = area_height - 4;
    if actual_height <= 3 {
        None
    } else if actual_height == 4 {
        Some(
            PopupPlan {
                padding_left,
                popup_width,
                padding_right,
                padding_top: 2,
                popup_height: 4,
                padding_bottom: 2,
                body: PopupBody::Short,
            },
        )
    } else if children == 0 {
        let padding_top: u16 = (area_height - 5) / 2;
        let padding_bottom: u16 = area_height - 5 - padding_top;
        Some(
            PopupPlan {
                padding_left,
                popup_width,
                padding_right,
                padding_top,
                popup_height: 5,
                padding_bottom,
                body: PopupBody::Plain,
            },
        )
    } else if actual_height == 5 {
        let padding_top: u16 = (area_height - 5) / 2;
        let padding_bottom: u16 = area_height - 5 - padding_top;
        Some(
            PopupPlan {
                padding_left,
                popup_width,
                padding_right,
                padding_top,
                popup_height: 5,
                padding_bottom,
                body: PopupBody::Counted,
            },
        )
    } else if actual_height < 6 + children {
        let padding_top: u16 = (area_height - 5) / 2;
        let padding_bottom: u16 = area_height - 5 - padding_top;
        Some(
            PopupPlan {
                padding_left,
                popup_width,
                padding_right,
                padding_top,
                popup_height: 6,
                padding_bottom,
                body: PopupBody::CountedSpaced,
            },
        )
    } else {
        let height_needed: u16 = 6 + children;
        let padding_top: u16 = (area_height - height_needed) / 2;
        let padding_bottom: u16 = area_height - padding_top - height_needed;
        Some(
            PopupPlan {
                padding_left,
                popup_width,
                padding_right,
                padding_top,
                popup_height: height_needed,
                padding_bottom,
                body: PopupBody::Listed,
            },
        )
    }
}

} // verus!
