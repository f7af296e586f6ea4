use tuna::event::{Event, KeyMod, Keycode};
use tuna::geometry::Point;
use tuna::image::{Collection, Color};
use tuna::state::{EditorState, Tool};
use tuna::view::editor::{
    mode_perform, parse_metadata, parse_metrics, parse_resize, parse_rgba, shortcut, EditorRequest, EditorView,
    ModeOutcome, Shortcut,
};
use tuna::view::menu::MenuAction;
use tuna::view::palette::NextPrevPalette;
use tuna::view::scrollbar::NextPrevImage;
use tuna::view::textbox::Mode;
use tuna::view::toolbox::Toolbox;

fn fresh() -> EditorState {
    EditorState::new("out.ahi".to_string(), Collection::new())
}

fn command() -> KeyMod {
    KeyMod::command()
}

fn command_shift() -> KeyMod {
    KeyMod::command().bitor(KeyMod::shift())
}

#[test]
fn shortcut_keys() {
    assert_eq!(shortcut(Keycode::Z, command()), Some(Shortcut::Undo));
    assert_eq!(shortcut(Keycode::Z, command_shift()), Some(Shortcut::Redo));
    assert_eq!(shortcut(Keycode::S, command()), Some(Shortcut::Save));
    assert_eq!(shortcut(Keycode::S, command_shift()), Some(Shortcut::SaveAs));
    assert_eq!(shortcut(Keycode::Backspace, command()), Some(Shortcut::DeleteImage));
    assert_eq!(shortcut(Keycode::Num2, command_shift()), Some(Shortcut::Scale2x));
    assert_eq!(shortcut(Keycode::Z, KeyMod::none()), None);
    assert_eq!(shortcut(Keycode::Q, command()), None);
    assert_eq!(shortcut(Keycode::A, command_shift()), None);
}

fn key_of_letter(c: char) -> Keycode {
    match c {
        'H' => Keycode::H,
        'L' => Keycode::L,
        'R' => Keycode::R,
        'V' => Keycode::V,
        _ => Keycode::Other,
    }
}

#[test]
fn each_menu_entry_shows_the_keys_that_do_its_operation() {
    for action in MenuAction::all() {
        let written = action.shortcut();
        let (mods, letter) = if let Some(rest) = written.strip_prefix("CS-") {
            (command_shift(), rest)
        } else {
            (command(), written.strip_prefix("C-").unwrap())
        };
        assert_eq!(letter.chars().count(), 1);
        let key = key_of_letter(letter.chars().next().unwrap());
        let expected = match action {
            MenuAction::FlipHorz => Shortcut::FlipHorz,
            MenuAction::FlipVert => Shortcut::FlipVert,
            MenuAction::Resize => Shortcut::Resize,
            MenuAction::RotateLeft => Shortcut::RotateLeft,
            MenuAction::RotateRight => Shortcut::RotateRight,
        };
        assert_eq!(shortcut(key, mods), Some(expected));
    }
    assert_eq!(MenuAction::Resize.label(), "Resize images");
}

#[test]
fn reading_mode_texts() {
    assert_eq!(parse_resize("5x7"), Some((5, 7)));
    assert_eq!(parse_resize("5x"), None);
    assert_eq!(parse_resize("5x7x1"), None);
    assert_eq!(parse_resize("5X7"), None);
    assert_eq!(parse_metadata(""), Some(vec![]));
    assert_eq!(parse_metadata("1,-2,3"), Some(vec![1, -2, 3]));
    assert_eq!(parse_metadata("1,,3"), None);
    assert_eq!(parse_metadata("40000"), None);
    assert_eq!(parse_metrics("10/-1/7"), Some((10, -1, 7)));
    assert_eq!(parse_metrics("10/-1"), None);
    assert_eq!(parse_rgba("FF0080c0"), Some((255, 0, 128, 192)));
    assert_eq!(parse_rgba("FF0080"), None);
    assert_eq!(parse_rgba("FF0080cg"), None);
}

#[test]
fn performing_modes() {
    let mut state = fresh();
    assert!(matches!(mode_perform(&mut state, Mode::Resize, "5x7".to_string()), ModeOutcome::Finished(true)));
    assert_eq!(state.image_size(), (5, 7));
    assert!(matches!(mode_perform(&mut state, Mode::Resize, "5x".to_string()), ModeOutcome::Finished(false)));
    assert_eq!(state.image_size(), (5, 7));
    assert!(matches!(mode_perform(&mut state, Mode::SetMetadata, "1,-2".to_string()), ModeOutcome::Finished(true)));
    assert_eq!(state.image().metadata(), &vec![1, -2]);
    assert!(matches!(mode_perform(&mut state, Mode::SetTag, "hero".to_string()), ModeOutcome::Finished(true)));
    assert_eq!(state.image().tag(), "hero");
    assert!(matches!(mode_perform(&mut state, Mode::SetColor(Color::C2), "01020304".to_string()), ModeOutcome::Finished(false)));
    state.mutation().add_new_palette();
    assert!(matches!(mode_perform(&mut state, Mode::SetColor(Color::C2), "01020304".to_string()), ModeOutcome::Finished(true)));
    assert_eq!(state.palette().get(Color::C2), (1, 2, 3, 4));
    assert!(matches!(mode_perform(&mut state, Mode::TestSentence, "Hi".to_string()), ModeOutcome::Finished(true)));
    assert_eq!(state.test_sentence(), "Hi");
    match mode_perform(&mut state, Mode::LoadFile, "x.ahi".to_string()) {
        ModeOutcome::LoadFile(p) => assert_eq!(p, "x.ahi"),
        _ => panic!("expected a file to load"),
    }
    assert!(matches!(mode_perform(&mut state, Mode::Goto, "3".to_string()), ModeOutcome::Finished(false)));
    assert!(matches!(mode_perform(&mut state, Mode::Goto, "0".to_string()), ModeOutcome::Finished(true)));
}

#[test]
fn the_resize_shortcut_offers_the_size_and_giving_it_back_keeps_it() {
    let mut state = fresh();
    let mut view = EditorView::new();
    let (a, req) = view.on_event(&Event::KeyDown(Keycode::R, command()), &mut state);
    assert!(a.should_redraw());
    assert!(req.is_none());
    assert_eq!(view.modal_textbox().mode(), Mode::Resize);
    assert_eq!(view.modal_textbox().text(), "32x32");
    view.on_event(&Event::KeyDown(Keycode::Return, KeyMod::none()), &mut state);
    assert_eq!(view.modal_textbox().mode(), Mode::Edit);
    assert_eq!(state.image_size(), (32, 32));
    assert!(state.is_unsaved());
}

#[test]
fn undo_and_redo_shortcuts() {
    let mut state = fresh();
    let mut view = EditorView::new();
    state.mutation().resize_images(3, 3);
    view.on_event(&Event::KeyDown(Keycode::Z, command()), &mut state);
    assert_eq!(state.image_size(), (32, 32));
    view.on_event(&Event::KeyDown(Keycode::Z, command_shift()), &mut state);
    assert_eq!(state.image_size(), (3, 3));
    let (_, req) = view.on_event(&Event::KeyDown(Keycode::S, command()), &mut state);
    assert!(matches!(req, Some(EditorRequest::Save)));
}

#[test]
fn toolbox_keys_and_clicks_pick_tools() {
    let mut state = fresh();
    let mut toolbox = Toolbox::new(10, 20);
    let a = toolbox.on_event(&Event::KeyDown(Keycode::K, KeyMod::none()), &mut state);
    assert!(a.should_stop());
    assert_eq!(state.tool(), Tool::PaintBucket);
    let a = toolbox.on_event(&Event::KeyDown(Keycode::P, command()), &mut state);
    assert!(!a.should_stop());
    assert_eq!(state.tool(), Tool::PaintBucket);
    toolbox.on_event(&Event::MouseDown(Point::new(10 + 50 + 5, 20 + 74 + 5)), &mut state);
    assert_eq!(state.tool(), Tool::Lasso);
    let a = toolbox.on_event(&Event::MouseDown(Point::new(0, 0)), &mut state);
    assert!(!a.should_redraw());
    assert_eq!(state.tool(), Tool::Lasso);
}

#[test]
fn stepping_through_images_wraps_around() {
    let mut state = fresh();
    state.mutation().add_new_image('a');
    state.mutation().add_new_image('b');
    state.set_image_index(0);
    let prev = NextPrevImage::new(-1, Keycode::Up);
    let next = NextPrevImage::new(1, Keycode::Down);
    prev.increment(&mut state);
    assert_eq!(state.image_index(), 2);
    next.increment(&mut state);
    assert_eq!(state.image_index(), 0);
    next.increment(&mut state);
    assert_eq!(state.image_index(), 1);
}

#[test]
fn stepping_through_palettes_passes_the_built_in_one_and_steps_back() {
    let mut state = fresh();
    state.mutation().add_new_palette();
    state.mutation().add_new_palette();
    assert_eq!(state.num_palettes(), 2);
    state.set_palette_index(0);
    let left = NextPrevPalette::new(-1, Keycode::Left);
    let right = NextPrevPalette::new(1, Keycode::Right);
    left.increment(&mut state);
    assert_eq!(state.palette_index(), 2);
    right.increment(&mut state);
    assert_eq!(state.palette_index(), 0);
    right.increment(&mut state);
    right.increment(&mut state);
    assert_eq!(state.palette_index(), 2);
    right.increment(&mut state);
    assert_eq!(state.palette_index(), 0);
}

#[test]
fn every_tool_has_its_key() {
    let layout = [
        (Keycode::P, Tool::Pencil),
        (Keycode::K, Tool::PaintBucket),
        (Keycode::V, Tool::PaletteReplace),
        (Keycode::W, Tool::Watercolor),
        (Keycode::H, Tool::Checkerboard),
        (Keycode::X, Tool::PaletteSwap),
        (Keycode::I, Tool::Line),
        (Keycode::R, Tool::Rectangle),
        (Keycode::O, Tool::Oval),
        (Keycode::Y, Tool::Eyedropper),
        (Keycode::S, Tool::Select),
        (Keycode::L, Tool::Lasso),
    ];
    let mut state = fresh();
    let mut toolbox = Toolbox::new(3, 34);
    for (key, tool) in layout {
        let a = toolbox.on_event(&Event::KeyDown(key, KeyMod::none()), &mut state);
        assert!(a.should_stop());
        assert_eq!(state.tool(), tool);
    }
}
