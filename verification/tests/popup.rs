use buisson::components::popup::{deletion_popup, PopupBody, PopupPlan};

#[test]
fn an_area_under_eight_lines_has_no_popup() {
    for height in 0..8 {
        assert_eq!(deletion_popup(80, height, 20, 0), None);
        assert_eq!(deletion_popup(80, height, 20, 3), None);
    }
    assert!(deletion_popup(80, 8, 20, 0).is_some());
}

#[test]
fn the_popup_is_as_wide_as_its_line_asks() {
    let plan = deletion_popup(80, 20, 26, 0).unwrap();
    assert_eq!((plan.padding_left, plan.popup_width, plan.padding_right), (25, 30, 25));
    let plan = deletion_popup(81, 20, 26, 0).unwrap();
    assert_eq!((plan.padding_left, plan.popup_width, plan.padding_right), (25, 30, 26));
}

#[test]
fn the_popup_leaves_four_columns_of_a_narrow_area() {
    let plan = deletion_popup(20, 20, 40, 0).unwrap();
    assert_eq!((plan.padding_left, plan.popup_width, plan.padding_right), (2, 16, 2));
    let plan = deletion_popup(4, 20, 40, 0).unwrap();
    assert_eq!((plan.padding_left, plan.popup_width, plan.padding_right), (2, 0, 2));
    let plan = deletion_popup(u16::MAX, 20, u16::MAX - 4, 0).unwrap();
    assert_eq!((plan.padding_left, plan.popup_width, plan.padding_right), (2, u16::MAX - 4, 2));
}

#[test]
fn an_area_of_eight_lines_has_the_short_popup() {
    assert_eq!(
        deletion_popup(80, 8, 26, 5),
        Some(PopupPlan {
            padding_left: 25,
            popup_width: 30,
            padding_right: 25,
            padding_top: 2,
            popup_height: 4,
            padding_bottom: 2,
            body: PopupBody::Short,
        })
    );
    assert_eq!(deletion_popup(80, 8, 26, 0).unwrap().body, PopupBody::Short);
}

#[test]
fn a_lesson_without_dependents_has_the_plain_popup() {
    assert_eq!(
        deletion_popup(80, 20, 26, 0),
        Some(PopupPlan {
            padding_left: 25,
            popup_width: 30,
            padding_right: 25,
            padding_top: 7,
            popup_height: 5,
            padding_bottom: 8,
            body: PopupBody::Plain,
        })
    );
    let plan = deletion_popup(80, 9, 26, 0).unwrap();
    assert_eq!((plan.padding_top, plan.popup_height, plan.padding_bottom), (2, 5, 2));
    assert_eq!(plan.body, PopupBody::Plain);
}

#[test]
fn dependents_are_counted_where_they_cannot_be_listed() {
    let plan = deletion_popup(80, 9, 26, 2).unwrap();
    assert_eq!((plan.padding_top, plan.popup_height, plan.padding_bottom), (2, 5, 2));
    assert_eq!(plan.body, PopupBody::Counted);

    let plan = deletion_popup(80, 10, 26, 1).unwrap();
    assert_eq!((plan.padding_top, plan.popup_height, plan.padding_bottom), (2, 6, 3));
    assert_eq!(plan.body, PopupBody::CountedSpaced);

    let plan = deletion_popup(80, 12, 26, 3).unwrap();
    assert_eq!((plan.padding_top, plan.popup_height, plan.padding_bottom), (3, 6, 4));
    assert_eq!(plan.body, PopupBody::CountedSpaced);
}

#[test]
fn dependents_are_listed_where_the_area_is_high_enough() {
    let plan = deletion_popup(80, 13, 26, 3).unwrap();
    assert_eq!((plan.padding_top, plan.popup_height, plan.padding_bottom), (2, 9, 2));
    assert_eq!(plan.body, PopupBody::Listed);

    let plan = deletion_popup(80, 11, 26, 1).unwrap();
    assert_eq!((plan.padding_top, plan.popup_height, plan.padding_bottom), (2, 7, 2));
    assert_eq!(plan.body, PopupBody::Listed);

    let plan = deletion_popup(80, 40, 26, 4).unwrap();
    assert_eq!((plan.padding_top, plan.popup_height, plan.padding_bottom), (15, 10, 15));
    assert_eq!(plan.body, PopupBody::Listed);
}

#[test]
fn the_widths_of_a_plan_fill_the_area() {
    for width in [4u16, 5, 17, 80, 81, 300, u16::MAX] {
        for message in [0u16, 1, 13, 76, 77, 500, u16::MAX - 4] {
            let plan = deletion_popup(width, 30, message, 2).unwrap();
            assert_eq!(
                plan.padding_left as u32 + plan.popup_width as u32 + plan.padding_right as u32,
                width as u32
            );
            assert_eq!(plan.popup_width, (width - 4).min(4 + message));
        }
    }
}

#[test]
fn the_heights_of_a_listing_plan_fill_the_area() {
    for height in [12u16, 13, 50, 51, u16::MAX] {
        let plan = deletion_popup(80, height, 26, 2).unwrap();
        assert_eq!(plan.body, PopupBody::Listed);
        assert_eq!(
            plan.padding_top as u32 + plan.popup_height as u32 + plan.padding_bottom as u32,
            height as u32
        );
    }
    let plan = deletion_popup(80, u16::MAX, 26, u16::MAX - 10).unwrap();
    assert_eq!((plan.padding_top, plan.popup_height, plan.padding_bottom), (2, u16::MAX - 4, 2));
    assert_eq!(plan.body, PopupBody::Listed);
    let plan = deletion_popup(80, u16::MAX, 26, u16::MAX - 6).unwrap();
    assert_eq!((plan.padding_top, plan.popup_height, plan.padding_bottom), (32765, 6, 32765));
    assert_eq!(plan.body, PopupBody::CountedSpaced);
}
