use tuna::geometry::Rect;
use tuna::image::{Collection, Color, Font, Image};
use tuna::state::{EditorState, Mirror, Tool, MAX_UNDOS};

fn fresh() -> EditorState {
    EditorState::new("out.ahi".to_string(), Collection::new())
}

#[test]
fn an_empty_collection_starts_with_one_blank_image() {
    let state = fresh();
    assert_eq!(state.num_images(), 1);
    assert_eq!(state.image_size(), (32, 32));
    assert_eq!(state.image_index(), 0);
    assert_eq!(state.image_name(), "0");
    assert_eq!(state.color(), Color::C1);
    assert_eq!(state.tool(), Tool::Pencil);
    assert_eq!(state.mirror(), Mirror::NoMirror);
    assert!(!state.is_unsaved());
    assert_eq!(state.filepath(), "out.ahi");
}

#[test]
fn undo_gives_back_the_state_before_a_mutation_and_redo_repeats_it() {
    let mut state = fresh();
    assert!(!state.undo());
    assert!(state.mutation().add_new_image('a'));
    assert_eq!(state.num_images(), 2);
    assert_eq!(state.image_index(), 1);
    assert!(state.is_unsaved());
    assert!(state.undo());
    assert_eq!(state.num_images(), 1);
    assert_eq!(state.image_index(), 0);
    assert!(!state.is_unsaved());
    assert!(state.redo());
    assert_eq!(state.num_images(), 2);
    assert_eq!(state.image_index(), 1);
    assert!(!state.redo());
}

#[test]
fn a_new_mutation_forgets_what_was_undone() {
    let mut state = fresh();
    state.mutation().add_new_image('a');
    state.undo();
    state.mutation().resize_images(5, 6);
    assert!(!state.redo());
    assert_eq!(state.image_size(), (5, 6));
}

#[test]
fn undoing_after_a_save_makes_the_document_unsaved() {
    let mut state = fresh();
    state.mutation().resize_images(4, 4);
    state.mark_saved();
    assert!(!state.is_unsaved());
    assert!(state.undo());
    assert!(state.is_unsaved());
    assert!(state.redo());
    assert!(!state.is_unsaved());
}

#[test]
fn the_history_keeps_at_most_max_undos_snapshots() {
    let mut state = fresh();
    for _ in 0..(MAX_UNDOS + 5) {
        state.mutation().resize_images(3, 3);
    }
    let mut undos = 0;
    while state.undo() {
        undos += 1;
    }
    assert_eq!(undos, MAX_UNDOS);
}

#[test]
fn deleting_the_image_just_added_gives_back_the_images() {
    let mut state = fresh();
    state.mutation().resize_images(2, 3);
    state.mutation().add_new_image('a');
    assert_eq!(state.num_images(), 2);
    assert!(state.mutation().delete_image());
    assert_eq!(state.num_images(), 1);
    assert_eq!(state.image_size(), (2, 3));
    assert!(!state.mutation().delete_image());
}

#[test]
fn deleting_the_palette_just_added_gives_back_the_palettes() {
    let mut state = fresh();
    assert_eq!(state.num_palettes(), 0);
    assert!(state.mutation().add_new_palette());
    assert_eq!(state.num_palettes(), 1);
    assert!(state.mutation().set_palette_color(Color::C2, (1, 2, 3, 4)));
    assert_eq!(state.palette().get(Color::C2), (1, 2, 3, 4));
    assert!(state.mutation().delete_palette());
    assert_eq!(state.num_palettes(), 0);
    assert_eq!(state.palette().get(Color::C2), (127, 0, 0, 255));
}

#[test]
fn go_to_reads_an_index_in_decimal() {
    let mut state = fresh();
    state.mutation().add_new_image('a');
    state.mutation().add_new_image('b');
    assert!(state.go_to("1"));
    assert_eq!(state.image_index(), 1);
    assert!(!state.go_to("3"));
    assert!(!state.go_to("x"));
    assert_eq!(state.image_index(), 1);
}

#[test]
fn painting_a_pixel_uses_the_color_and_the_mirror() {
    let mut state = fresh();
    state.mutation().resize_images(4, 4);
    state.set_color(Color::C5);
    state.set_mirror(Mirror::Horz);
    state.mutation().color_pixel((0, 1));
    assert_eq!(state.image().get(0, 1), Color::C5);
    assert_eq!(state.image().get(3, 1), Color::C5);
    assert_eq!(state.image().get(1, 1), Color::C0);
}

#[test]
fn mirror_positions_of_each_symmetry() {
    let mut state = fresh();
    state.mutation().resize_images(4, 4);
    state.set_mirror(Mirror::NoMirror);
    assert_eq!(state.mirror_positions((0, 1)), vec![(0, 1)]);
    state.set_mirror(Mirror::Both);
    assert_eq!(state.mirror_positions((0, 1)), vec![(0, 1), (3, 1), (0, 2), (3, 2)]);
    state.set_mirror(Mirror::Rot4);
    assert_eq!(state.mirror_positions((0, 1)), vec![(0, 1), (3, 2), (2, 0), (1, 3)]);
}

#[test]
fn a_font_names_its_glyphs() {
    let mut state = fresh();
    state.load_font("font.ahf".to_string(), Font::with_glyph_height(8));
    assert_eq!(state.image_name(), "def");
    assert_eq!(state.image_metrics(), Some((0, 0, 0)));
    assert!(state.mutation().add_new_image('q'));
    assert_eq!(state.image_name(), "'q'");
    assert!(state.go_to("def"));
    assert_eq!(state.image_name(), "def");
    assert!(state.go_to("q"));
    assert_eq!(state.image_name(), "'q'");
    assert!(!state.go_to("zz"));
    assert!(state.to_collection().is_none());
}

#[test]
fn eyedropping_takes_the_color_under_the_point() {
    let mut state = fresh();
    let mut img = Image::new(2, 2);
    img.set(1, 0, Color::C9);
    let mut coll = Collection::new();
    coll.images.push(img);
    state.load_collection("other.ahi".to_string(), coll);
    state.eyedrop_at((1, 0));
    assert_eq!(state.color(), Color::C9);
    assert_eq!(state.filepath(), "other.ahi");
}

#[test]
fn pasting_right_after_cutting_gives_the_selection_back() {
    let mut state = fresh();
    state.mutation().resize_images(4, 4);
    state.set_color(Color::C5);
    state.mutation().color_pixel((1, 1));
    state.mutation().select(&Rect::new(1, 1, 2, 2));
    assert_eq!(state.tool(), Tool::Select);
    assert_eq!(state.image().get(1, 1), Color::C0);
    state.mutation().cut_selection();
    assert!(state.selection().is_none());
    state.mutation().paste_selection();
    let (selected, corner) = state.selection().unwrap();
    assert_eq!((corner.x(), corner.y()), (1, 1));
    assert_eq!((selected.width(), selected.height()), (2, 2));
    assert_eq!(selected.get(0, 0), Color::C5);
    assert_eq!(selected.get(1, 1), Color::C0);
    assert_eq!(state.image().get(1, 1), Color::C0);
    state.unselect_if_necessary();
    assert_eq!(state.image().get(1, 1), Color::C5);
}

#[test]
fn a_run_of_persistent_mutations_is_undone_at_once() {
    let mut state = fresh();
    state.mutation().resize_images(4, 4);
    state.set_color(Color::C5);
    state.reset_persistent_mutation();
    state.persistent_mutation().color_pixel((0, 0));
    state.persistent_mutation().color_pixel((1, 0));
    state.persistent_mutation().color_pixel((2, 0));
    assert!(state.is_unsaved());
    assert!(!state.redo());
    assert!(state.undo());
    assert_eq!(state.image_size(), (4, 4));
    assert_eq!(state.image().get(0, 0), Color::C0);
    assert_eq!(state.image().get(2, 0), Color::C0);
    assert!(state.undo());
    assert_eq!(state.image_size(), (32, 32));
}

#[test]
fn text_width_adds_each_glyphs_advance() {
    let mut font = Font::with_glyph_height(4);
    font.set_char_glyph('a', tuna::image::Glyph::new(Image::new(3, 4), 0, 4));
    font.set_char_glyph('b', tuna::image::Glyph::new(Image::new(2, 4), 1, 3));
    font.set_default_glyph(tuna::image::Glyph::new(Image::new(1, 4), 0, 1));
    assert_eq!(font.text_width(""), 0);
    assert_eq!(font.text_width("ab"), 6);
    assert_eq!(font.text_width("a?b"), 7);
}

#[test]
fn selecting_then_unselecting_gives_the_image_back() {
    let mut state = fresh();
    state.mutation().resize_images(4, 3);
    state.set_color(Color::C7);
    state.mutation().color_pixel((1, 1));
    state.mutation().color_pixel((3, 2));
    let before: Vec<Vec<Color>> = (0..3).map(|r| (0..4).map(|c| state.image().get(c, r)).collect()).collect();
    state.mutation().select(&Rect::new(1, 0, 3, 3));
    assert!(state.selection().is_some());
    assert_eq!(state.image().get(1, 1), Color::C0);
    state.mutation().unselect();
    assert!(state.selection().is_none());
    let after: Vec<Vec<Color>> = (0..3).map(|r| (0..4).map(|c| state.image().get(c, r)).collect()).collect();
    assert_eq!(after, before);
}

#[test]
fn a_failed_save_as_keeps_the_former_path() {
    let mut state = fresh();
    let former = state.swap_filepath("new.ahi".to_string());
    state.save_as_done(former, false);
    assert_eq!(state.filepath(), "out.ahi");
    let former = state.swap_filepath("new.ahi".to_string());
    state.save_as_done(former, true);
    assert_eq!(state.filepath(), "new.ahi");
}
