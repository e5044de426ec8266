use trywin::styles::{
    child_request, edit_options, NativeClass, BS_DEFPUSHBUTTON, BS_GROUPBOX, BS_PUSHBUTTON,
    ES_AUTOVSCROLL, ES_MULTILINE, ES_WANTRETURN, WS_BORDER, WS_CHILD, WS_CLIPCHILDREN,
    WS_CLIPSIBLINGS, WS_EX_CONTROLPARENT, WS_EX_OVERLAPPEDWINDOW, WS_OVERLAPPEDWINDOW, WS_VISIBLE,
    WS_VSCROLL,
};
use trywin::{ChildType, EditOptions};

fn demo_edit_options() -> EditOptions {
    EditOptions {
        border: true,
        hscroll: false,
        vscroll: true,
        auto_hscroll: false,
        auto_vscroll: true,
        center: false,
        lower_case: false,
        multiline: true,
        password: false,
        readonly: false,
        uppercase: false,
        want_return: true,
    }
}

#[test]
fn edit_style_word_is_exact() {
    let style = edit_options(demo_edit_options());
    assert_eq!(
        style,
        WS_CHILD | WS_BORDER | WS_VSCROLL | ES_AUTOVSCROLL | ES_MULTILINE | ES_WANTRETURN
    );
    assert_eq!(edit_options(EditOptions::default()), WS_CHILD);
}

#[test]
fn child_requests_name_class_and_style() {
    assert_eq!(
        child_request(&ChildType::Custom),
        (NativeClass::General, WS_CHILD | WS_VISIBLE | WS_CLIPSIBLINGS)
    );
    assert_eq!(
        child_request(&ChildType::Button),
        (NativeClass::Button, WS_VISIBLE | WS_CHILD | BS_PUSHBUTTON)
    );
    assert_eq!(
        child_request(&ChildType::DefaultButton),
        (NativeClass::Button, WS_VISIBLE | WS_CHILD | BS_DEFPUSHBUTTON)
    );
    assert_eq!(
        child_request(&ChildType::Groupbox),
        (NativeClass::Button, WS_VISIBLE | WS_CHILD | BS_GROUPBOX)
    );
    let (class, style) = child_request(&ChildType::Edit(demo_edit_options()));
    assert_eq!(class, NativeClass::Edit);
    assert_eq!(style, WS_VISIBLE | WS_CHILD | edit_options(demo_edit_options()));
}

#[test]
fn controls_are_subclassed_customs_are_not() {
    let mut w = trywin::world::World::new();
    let m = w.new_main().unwrap();
    let custom = w.create_child(m, &ChildType::Custom).unwrap();
    let button = w.create_child(m, &ChildType::Button).unwrap();
    // visibility comes straight from the style word
    assert!(w.is_visible(custom));
    assert!(w.is_visible(button));
    assert!(!w.is_visible(m));
}

#[test]
fn creation_records_the_style_words() {
    let mut w = trywin::world::World::new();
    let m = w.new_main().unwrap();
    assert_eq!(w.style_at(m), WS_OVERLAPPEDWINDOW | WS_CLIPCHILDREN);
    assert_eq!(w.ex_style_at(m), WS_EX_OVERLAPPEDWINDOW | WS_EX_CONTROLPARENT);
    let button = w.create_child(m, &ChildType::Button).unwrap();
    assert_eq!(w.style_at(button), WS_VISIBLE | WS_CHILD | BS_PUSHBUTTON);
    assert_eq!(w.ex_style_at(button), 0);
}
