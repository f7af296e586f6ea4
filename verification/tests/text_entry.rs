use tuna::event::{Event, KeyMod, Keycode};
use tuna::image::Color;
use tuna::view::textbox::{common_prefix, completion_candidates, sort_names, Mode, TabCompletion, TextBox};

fn key(k: Keycode) -> Event {
    Event::KeyDown(k, KeyMod::none())
}

fn typed(s: &str) -> Event {
    Event::TextInput(s.to_string())
}

#[test]
fn typing_goes_in_at_the_cursor() {
    let mut tb = TextBox::new();
    let a = tb.on_event(&typed("ab"), &mut ());
    assert!(a.should_redraw());
    assert!(a.should_stop());
    tb.on_event(&key(Keycode::Left), &mut ());
    tb.on_event(&typed("x"), &mut ());
    assert_eq!(tb.text(), "axb");
    assert_eq!(tb.text_before_cursor(), "ax");
    tb.on_event(&key(Keycode::Up), &mut ());
    assert_eq!(tb.text_before_cursor(), "");
    tb.on_event(&key(Keycode::Down), &mut ());
    assert_eq!(tb.text_before_cursor(), "axb");
}

#[test]
fn backspace_deletes_before_the_cursor() {
    let mut tb = TextBox::new();
    tb.set_text("abc".to_string());
    tb.on_event(&key(Keycode::Left), &mut ());
    tb.on_event(&key(Keycode::Backspace), &mut ());
    assert_eq!(tb.text(), "ac");
    assert_eq!(tb.text_before_cursor(), "a");
    tb.on_event(&key(Keycode::Up), &mut ());
    let a = tb.on_event(&key(Keycode::Backspace), &mut ());
    assert!(!a.should_redraw());
    assert!(!a.should_stop());
    assert_eq!(tb.text(), "ac");
}

#[test]
fn alt_backspace_deletes_a_path_component() {
    let mut tb = TextBox::new();
    tb.set_text("/usr/local/share/".to_string());
    tb.on_event(&Event::KeyDown(Keycode::Backspace, KeyMod::alt()), &mut ());
    assert_eq!(tb.text(), "/usr/local/");
    tb.on_event(&Event::KeyDown(Keycode::Backspace, KeyMod::alt()), &mut ());
    assert_eq!(tb.text(), "/usr/");
}

#[test]
fn typing_a_character_then_backspace_gives_the_text_back() {
    for (text, lefts) in [("", 0), ("hello", 0), ("hello", 2), ("hello", 5)] {
        let mut tb = TextBox::new();
        tb.set_text(text.to_string());
        for _ in 0..lefts {
            tb.on_event(&key(Keycode::Left), &mut ());
        }
        let before = tb.text_before_cursor();
        tb.on_event(&typed("Z"), &mut ());
        tb.on_event(&Event::KeyDown(Keycode::Backspace, KeyMod::shift()), &mut ());
        assert_eq!(tb.text(), text);
        assert_eq!(tb.text_before_cursor(), before);
    }
}

#[test]
fn other_keys_stop_without_redrawing() {
    let mut tb = TextBox::new();
    let a = tb.on_event(&key(Keycode::A), &mut ());
    assert!(a.should_stop());
    assert!(!a.should_redraw());
}

#[test]
fn the_cursor_blinks_with_the_clock() {
    let mut tb = TextBox::new();
    assert!(tb.cursor_visible());
    let mut changes = 0;
    let mut visible = true;
    for _ in 0..40 {
        let a = tb.on_event(&Event::ClockTick, &mut ());
        if tb.cursor_visible() != visible {
            visible = tb.cursor_visible();
            changes += 1;
            assert!(a.should_redraw());
        } else {
            assert!(!a.should_redraw());
        }
    }
    assert!(changes >= 2);
}

#[test]
fn completion_offers_directories_and_allowed_files() {
    let entries = vec![
        ("fonts".to_string(), true),
        ("foo.ahi".to_string(), false),
        ("foo.png".to_string(), false),
        ("font.ahf".to_string(), false),
        ("bar.ahi".to_string(), false),
    ];
    assert_eq!(
        completion_candidates(TabCompletion::LoadableFiles, "fo", &entries),
        vec!["fonts".to_string(), "foo.ahi".to_string(), "font.ahf".to_string()]
    );
    assert_eq!(
        completion_candidates(TabCompletion::AllFiles, "foo", &entries),
        vec!["foo.ahi".to_string(), "foo.png".to_string()]
    );
    assert!(TabCompletion::LoadableFiles.allow("x.ahf"));
    assert!(!TabCompletion::LoadableFiles.allow("ahf"));
    assert!(TabCompletion::AllFiles.allow("ahf"));
}

#[test]
fn the_common_prefix_is_the_longest_shared_beginning() {
    let names = vec!["fonts".to_string(), "foo.ahi".to_string(), "font.ahf".to_string()];
    assert_eq!(common_prefix(&names), "fo");
    assert_eq!(common_prefix(&vec!["same".to_string(), "same".to_string()]), "same");
    assert_eq!(common_prefix(&vec!["abc".to_string(), "xyz".to_string()]), "");
}

#[test]
fn modes_have_labels_and_completions() {
    assert_eq!(Mode::Resize.label(), "Size:");
    assert_eq!(Mode::SetColor(Color::C3).label(), "Color:");
    assert_eq!(Mode::LoadFile.tab_completion(), Some(TabCompletion::LoadableFiles));
    assert_eq!(Mode::Export.tab_completion(), Some(TabCompletion::AllFiles));
    assert_eq!(Mode::Goto.tab_completion(), None);
}

#[test]
fn names_sort_as_strings_compare() {
    let names = vec!["foo.ahi".to_string(), "Fonts".to_string(), "fo".to_string(), "foo.ahi".to_string(), "a".to_string()];
    let mut expected = names.clone();
    expected.sort();
    assert_eq!(sort_names(names), expected);
    assert_eq!(sort_names(vec![]), Vec::<String>::new());
}
