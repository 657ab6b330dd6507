use java_uml::layout::{
    layout_class, widest_of, Placement, FONT_SIZE, UML_ITEM_HEIGHT, UML_PADDING,
};

#[test]
fn sizes() {
    assert_eq!(FONT_SIZE, 40);
    assert_eq!(UML_PADDING, 20);
    assert_eq!(UML_ITEM_HEIGHT, 2 * UML_PADDING + FONT_SIZE);
}

#[test]
fn widest_of_some_and_of_none() {
    assert_eq!(widest_of(&vec![]), 0);
    assert_eq!(widest_of(&vec![3]), 3);
    assert_eq!(widest_of(&vec![3, 9, 4, 9, 1]), 9);
    assert_eq!(widest_of(&vec![0, u32::MAX]), u32::MAX);
}

#[test]
fn layout_of_a_class_with_members() {
    let layout = layout_class(60, &vec![100, 180], &vec![150], 2, 2).expect("the box fits");
    assert_eq!(layout.width, 220);
    assert_eq!(layout.height, 320);
    assert_eq!(layout.name, Placement { x: 2 + 110 - 30, y: 22 });
    assert_eq!(layout.fields, vec![Placement { x: 22, y: 102 }, Placement { x: 22, y: 182 }]);
    assert_eq!(layout.methods, vec![Placement { x: 22, y: 262 }]);
}

#[test]
fn layout_follows_the_widest_text() {
    let by_name = layout_class(300, &vec![100], &vec![150], 0, 0).expect("the box fits");
    assert_eq!(by_name.width, 340);
    assert_eq!(by_name.name, Placement { x: 20, y: 20 });
    let by_method = layout_class(31, &vec![100], &vec![151], 10, 0).expect("the box fits");
    assert_eq!(by_method.width, 191);
    assert_eq!(by_method.name, Placement { x: 10 + 95 - 15, y: 20 });
}

#[test]
fn layout_of_a_class_without_members() {
    let layout = layout_class(0, &vec![], &vec![], 5, 7).expect("the box fits");
    assert_eq!(layout.width, 40);
    assert_eq!(layout.height, 80);
    assert_eq!(layout.name, Placement { x: 25, y: 27 });
    assert!(layout.fields.is_empty());
    assert!(layout.methods.is_empty());
}

#[test]
fn layout_up_to_the_last_coordinate() {
    let layout = layout_class(60, &vec![], &vec![], u32::MAX - 100, u32::MAX - 80);
    assert!(layout.is_some());
    assert!(layout_class(61, &vec![], &vec![], u32::MAX - 100, u32::MAX - 80).is_none());
    assert!(layout_class(60, &vec![], &vec![], u32::MAX - 99, u32::MAX - 80).is_none());
    assert!(layout_class(60, &vec![], &vec![], u32::MAX - 100, u32::MAX - 79).is_none());
    assert!(layout_class(60, &vec![1], &vec![], u32::MAX - 100, u32::MAX - 80).is_none());
}

#[test]
fn no_layout_for_a_text_of_full_width() {
    assert!(layout_class(u32::MAX, &vec![], &vec![], 0, 0).is_none());
    assert!(layout_class(0, &vec![u32::MAX - 39], &vec![], 0, 0).is_none());
    assert!(layout_class(0, &vec![u32::MAX - 40], &vec![], 0, 0).is_some());
}
