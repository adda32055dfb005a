use hex_ln::editor::{typed_bytes, Action, Editor};
use hex_ln::font::{Font, Glyph, Ink, CODES};
use hex_ln::io::event::{Event, KEY_F1};
use hex_ln::textbox::{Quad, Ratio, TextBox};

fn inked(id: u16, advance: u16, bearing: [i32; 2], size: [i32; 2]) -> Glyph {
    Glyph {
        tex: Some(Ink { glyph_id: id, x_min: 0, y_min: 0 }),
        size,
        bearing,
        h_advance: advance,
    }
}

/// A font with glyphs for 'A', 'B' and the space only.
fn test_font() -> Font {
    let mut glyphs: Vec<Option<Glyph>> = vec![None; CODES];
    glyphs[b'A' as usize] = Some(inked(1, 600, [50, 0], [500, 700]));
    glyphs[b'B' as usize] = Some(inked(2, 650, [40, -10], [550, 700]));
    glyphs[b' ' as usize] = Some(Glyph::from_metrics(3, None, Some(300), Some(0), None));
    Font::from_glyphs(glyphs, 1000, 1200).unwrap()
}

#[test]
fn from_glyphs_checks_entry_count_and_units() {
    assert!(Font::from_glyphs(vec![None; 127], 1000, 1200).is_none());
    assert!(Font::from_glyphs(vec![None; CODES], 15, 1200).is_none());
    assert!(Font::from_glyphs(vec![None; CODES], 16385, 1200).is_none());
    let f = Font::from_glyphs(vec![None; CODES], 2048, -5).unwrap();
    assert_eq!(f.units_per_em(), 2048);
    assert_eq!(f.line_height(), -5);
    assert!(f.get(b'A').is_none());
}

#[test]
fn get_is_a_pure_lookup() {
    let f = test_font();
    let a1 = *f.get(b'A').unwrap();
    let a2 = *f.get(b'A').unwrap();
    assert_eq!(a1.h_advance, 600);
    assert_eq!(a2.h_advance, a1.h_advance);
    assert_eq!(a2.size, a1.size);
    assert!(f.get(b'C').is_none());
    assert!(f.get(127).is_none());
}

#[test]
fn glyph_without_outline_has_no_texture() {
    let g = Glyph::from_metrics(3, None, Some(1233), Some(7), Some(-2));
    assert!(g.tex.is_none());
    assert_eq!(g.size, [0, 0]);
    assert_eq!(g.h_advance, 1233);
    assert_eq!(g.bearing, [7, -2]);
}

#[test]
fn glyph_with_outline_covers_its_box() {
    let g = Glyph::from_metrics(36, Some((-20, -300, 480, 900)), Some(500), None, None);
    let ink = g.tex.unwrap();
    assert_eq!((ink.glyph_id, ink.x_min, ink.y_min), (36, -20, -300));
    assert_eq!(g.size, [500, 1200]);
    assert_eq!(g.bearing, [0, 0]);
    assert_eq!(g.h_advance, 500);
    let wide = Glyph::from_metrics(1, Some((-32768, -32768, 32767, 32767)), None, None, None);
    assert_eq!(wide.size, [65535, 65535]);
    assert_eq!(wide.h_advance, 0);
}

#[test]
fn empty_text_draws_nothing() {
    let f = test_font();
    let mut tb = TextBox::new([1920, 1080]);
    assert!(tb.is_drawable(&f));
    tb.draw([640, 480], &f, Ratio { num: 5, den: 1 });
    let frame = tb.view();
    assert_eq!(frame.viewport, [640, 480]);
    assert!(frame.quads.is_empty());
}

#[test]
fn tab_after_newline_moves_pen() {
    let f = test_font();
    let mut tb = TextBox::new([1920, 1080]);
    tb.update("A\n\tB");
    assert!(tb.is_drawable(&f));
    tb.draw([1920, 1080], &f, Ratio { num: 5, den: 1 });
    let frame = tb.view();
    assert_eq!(frame.scale, [80, 1000]);
    assert_eq!(frame.quads.len(), 2);
    let a = frame.quads[0];
    assert_eq!((a.code, a.left, a.bottom, a.width, a.height), (b'A', 50, -1200, 500, 700));
    // Pen for 'B': x = 4 * space advance, one line below the first pen line.
    let b = frame.quads[1];
    let pen_x = 4 * 300;
    let pen_y = -1200 - 1200;
    assert_eq!(b.left, pen_x + 40);
    assert_eq!(b.bottom, pen_y - 10);
    assert_eq!((b.code, b.width, b.height), (b'B', 550, 700));
}

#[test]
fn space_advances_without_drawing() {
    let f = test_font();
    let mut tb = TextBox::new([100, 100]);
    tb.update("A B");
    tb.draw([100, 100], &f, Ratio { num: 1, den: 2 });
    let frame = tb.view();
    assert_eq!(frame.scale, [16, 2000]);
    assert_eq!(frame.quads.len(), 2);
    assert_eq!(frame.quads[1].left, 600 + 300 + 40);
    assert_eq!(frame.quads[1].bottom, -1200 - 10);
}

#[test]
fn undrawable_text_is_detected() {
    let f = test_font();
    let mut tb = TextBox::new([100, 100]);
    tb.update("AC");
    assert!(!tb.is_drawable(&f));
    tb.update("A\u{e9}");
    assert!(!tb.is_drawable(&f));
    let no_space = Font::from_glyphs(vec![None; CODES], 1000, 1000).unwrap();
    tb.update("\n\n");
    assert!(tb.is_drawable(&no_space));
    tb.update("\t");
    assert!(!tb.is_drawable(&no_space));
}

#[test]
fn redraw_is_deterministic() {
    let f = test_font();
    let mut one = TextBox::new([800, 600]);
    let mut two = TextBox::new([800, 600]);
    two.update("BBB");
    two.draw([800, 600], &f, Ratio { num: 3, den: 1 });
    for _ in 0..3 {
        one.update("AB\n\tA B");
        one.draw([800, 600], &f, Ratio { num: 2, den: 1 });
        two.update("AB\n\tA B");
        two.draw([800, 600], &f, Ratio { num: 2, den: 1 });
        assert_eq!(one.view(), two.view());
    }
    let quads: &Vec<Quad> = &one.view().quads;
    assert_eq!(quads.len(), 4);
}

#[test]
fn f1_toggles_edit_mode() {
    let mut ed = Editor::new();
    assert!(!ed.edit);
    let press = Event::Keyboard { down: true, timestamp: 0, sym: KEY_F1, mod_: 0 };
    let release = Event::Keyboard { down: false, timestamp: 1, sym: KEY_F1, mod_: 0 };
    let other = Event::Keyboard { down: true, timestamp: 2, sym: 97, mod_: 0 };
    assert_eq!(ed.handle(&press), Action::TextInput(true));
    assert!(ed.edit);
    assert_eq!(ed.handle(&release), Action::Nothing);
    assert_eq!(ed.handle(&other), Action::Nothing);
    assert!(ed.edit);
    assert_eq!(ed.handle(&press), Action::TextInput(false));
    assert!(!ed.edit);
    assert_eq!(ed.handle(&Event::Quit), Action::Quit);
}

#[test]
fn typed_text_follows_prompt_in_edit_mode() {
    let mut text = [0i8; 32];
    text[0] = b'h' as i8;
    text[1] = b'i' as i8;
    let mut ed = Editor::new();
    assert_eq!(ed.handle(&Event::TextInput { text }), Action::Nothing);
    ed.edit = true;
    assert_eq!(
        ed.handle(&Event::TextInput { text }),
        Action::Show(b"Edit Mode:\nhi".to_vec())
    );
}

#[test]
fn typed_bytes_stop_at_nul() {
    let mut text = [b'x' as i8; 32];
    assert_eq!(typed_bytes(&text), vec![b'x'; 32]);
    text[3] = 0;
    text[5] = 0;
    assert_eq!(typed_bytes(&text), vec![b'x'; 3]);
    text[0] = 0;
    assert!(typed_bytes(&text).is_empty());
    text[0] = -61;
    assert_eq!(typed_bytes(&text), vec![195, b'x', b'x']);
}
