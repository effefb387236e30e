use gl_bitfont::{
    check_font_geometry, get_kaypro_2_font, get_osborne_font, get_waters_w600e_font, prepare_font,
    FontError, Framebuffer, GridError, LoadedFont, Phase, Terminal, TerminalGLState,
};

fn font() -> LoadedFont {
    let glyphs = vec![0u8; 8 * 128 * 10];
    let upload = get_osborne_font(&glyphs).upload().unwrap();
    LoadedFont::new(&upload, 7)
}

fn gl_state() -> TerminalGLState {
    TerminalGLState::new(
        1,
        2,
        3,
        [Framebuffer { fbo: 10, txo: 11 }, Framebuffer { fbo: 12, txo: 13 }],
        [Framebuffer { fbo: 20, txo: 21 }, Framebuffer { fbo: 22, txo: 23 }],
    )
}

fn terminal(cols: i32, rows: i32) -> Terminal {
    Terminal::new((cols, rows), (640, 480), font(), gl_state())
}

fn row(t: &Terminal, r: usize) -> String {
    let cols = t.term_dim.0 as usize;
    String::from_utf8(t.data[r * cols..(r + 1) * cols].to_vec()).unwrap()
}

fn rows(t: &Terminal) -> Vec<String> {
    (0..t.term_dim.1 as usize).map(|r| row(t, r)).collect()
}

fn set_rows(t: &mut Terminal, content: &[&str]) {
    for (y, line) in content.iter().enumerate() {
        t.write_str_at(0, y, line).unwrap();
    }
}

#[test]
fn has_basic_fonts() {
    let osborne = vec![0u8; 8 * 128 * 10];
    let kaypro = vec![0u8; 8 * 256 * 16];
    let waters = vec![0u8; 8 * 105 * 16];
    let o = get_osborne_font(&osborne).upload().unwrap();
    assert_eq!(o.atlas_size, (8 * 128, 10));
    assert_eq!(o.bounds, (0, 128));
    let k = get_kaypro_2_font(&kaypro).upload().unwrap();
    assert_eq!(k.atlas_size, (8 * 256, 16));
    let w = get_waters_w600e_font(&waters).upload().unwrap();
    assert_eq!(w.atlas_size, (8 * 105, 16));
    assert_eq!(w.bounds, (32, 137));
}

#[test]
fn new_terminal_is_blank() {
    let t = terminal(4, 3);
    assert_eq!(t.data.len(), 12);
    assert!(t.data.iter().all(|&b| b == 32));
    assert_eq!(t.cursor, (0, 0));
    assert_eq!(t.gl.crt_phase, Phase::A);
}

#[test]
fn example_write_string_then_char() {
    let mut t = terminal(5, 2);
    assert_eq!(t.write_str_at(0, 0, "AB"), Ok(()));
    assert_eq!(row(&t, 0), "AB   ");
    t.cursor = (0, 1);
    t.write_char('C');
    assert_eq!(row(&t, 1), "C    ");
    assert_eq!(t.cursor, (1, 1));
}

#[test]
fn filling_the_grid_scrolls_once_at_the_end() {
    let mut t = terminal(3, 2);
    for c in "abcde".chars() {
        t.write_char(c);
    }
    assert_eq!(rows(&t), vec!["abc", "de "]);
    assert_eq!(t.cursor, (2, 1));
    t.write_char('f');
    assert_eq!(rows(&t), vec!["def", "   "]);
    assert_eq!(t.cursor, (0, 1));
}

#[test]
fn scroll_up_then_down_blanks_shifted_rows() {
    let mut t = terminal(3, 3);
    set_rows(&mut t, &["AAA", "BBB", "CCC"]);
    t.scroll(1);
    assert_eq!(rows(&t), vec!["BBB", "CCC", "   "]);
    t.scroll(-1);
    assert_eq!(rows(&t), vec!["   ", "BBB", "CCC"]);
}

#[test]
fn scroll_down_then_up_blanks_shifted_rows() {
    let mut t = terminal(3, 3);
    set_rows(&mut t, &["AAA", "BBB", "CCC"]);
    t.scroll(-2);
    assert_eq!(rows(&t), vec!["   ", "   ", "AAA"]);
    t.scroll(2);
    assert_eq!(rows(&t), vec!["AAA", "   ", "   "]);
}

#[test]
fn scroll_zero_changes_nothing() {
    let mut t = terminal(3, 3);
    set_rows(&mut t, &["AAA", "BBB", "CCC"]);
    let before = t.data.clone();
    t.scroll(0);
    assert_eq!(t.data, before);
}

#[test]
fn scroll_beyond_rows_changes_nothing() {
    let mut t = terminal(3, 3);
    set_rows(&mut t, &["AAA", "BBB", "CCC"]);
    let before = t.data.clone();
    t.scroll(4);
    assert_eq!(t.data, before);
    t.scroll(-4);
    assert_eq!(t.data, before);
    t.scroll(127);
    assert_eq!(t.data, before);
    t.scroll(-128);
    assert_eq!(t.data, before);
}

#[test]
fn scroll_by_all_rows_blanks_everything() {
    let mut t = terminal(3, 3);
    set_rows(&mut t, &["AAA", "BBB", "CCC"]);
    t.scroll(3);
    assert_eq!(rows(&t), vec!["   ", "   ", "   "]);
    set_rows(&mut t, &["AAA", "BBB", "CCC"]);
    t.scroll(-3);
    assert_eq!(rows(&t), vec!["   ", "   ", "   "]);
}

#[test]
fn scroll_by_two() {
    let mut t = terminal(2, 4);
    set_rows(&mut t, &["ab", "cd", "ef", "gh"]);
    t.scroll(2);
    assert_eq!(rows(&t), vec!["ef", "gh", "  ", "  "]);
}

#[test]
fn newline_keeps_the_cell_under_the_cursor() {
    let mut t = terminal(4, 2);
    set_rows(&mut t, &["wxyz"]);
    t.cursor = (1, 0);
    t.write_char('\n');
    assert_eq!(rows(&t), vec!["wxyz", "    "]);
    assert_eq!(t.cursor, (0, 1));
}

#[test]
fn newline_on_last_line_scrolls() {
    let mut t = terminal(4, 2);
    set_rows(&mut t, &["abcd", "efgh"]);
    t.cursor = (2, 1);
    t.write_char('\n');
    assert_eq!(rows(&t), vec!["efgh", "    "]);
    assert_eq!(t.cursor, (0, 1));
}

#[test]
fn write_char_wraps_at_the_right_edge() {
    let mut t = terminal(3, 3);
    t.cursor = (2, 0);
    t.write_char('x');
    assert_eq!(row(&t, 0), "  x");
    assert_eq!(t.cursor, (0, 1));
}

#[test]
fn write_char_stores_low_byte_of_code() {
    let mut t = terminal(3, 1);
    assert_eq!(t.write_char_at(0, 0, '\u{e9}'), Ok(()));
    assert_eq!(t.write_char_at(1, 0, '\u{20ac}'), Ok(()));
    assert_eq!(t.data, vec![0xe9, 0xac, 32]);
}

#[test]
fn write_char_at_rejects_cells_off_the_grid() {
    let mut t = terminal(3, 2);
    assert_eq!(t.write_char_at(2, 1, 'q'), Ok(()));
    assert_eq!(rows(&t), vec!["   ", "  q"]);
    let before = t.data.clone();
    assert_eq!(t.write_char_at(3, 0, 'q'), Err(GridError::OutOfBounds));
    assert_eq!(t.write_char_at(0, 2, 'q'), Err(GridError::OutOfBounds));
    assert_eq!(t.data, before);
}

#[test]
fn write_str_at_rejects_text_that_does_not_fit() {
    let mut t = terminal(4, 2);
    assert_eq!(t.write_str_at(1, 1, "abc"), Ok(()));
    assert_eq!(rows(&t), vec!["    ", " abc"]);
    let before = t.data.clone();
    assert_eq!(t.write_str_at(2, 0, "abc"), Err(GridError::OutOfBounds));
    assert_eq!(t.write_str_at(0, 2, "a"), Err(GridError::OutOfBounds));
    assert_eq!(t.write_str_at(5, 0, ""), Err(GridError::OutOfBounds));
    assert_eq!(t.data, before);
    assert_eq!(t.write_str_at(4, 0, ""), Ok(()));
}

#[test]
fn write_str_at_writes_utf8_bytes() {
    let mut t = terminal(4, 1);
    assert_eq!(t.write_str_at(0, 0, "\u{e9}a"), Ok(()));
    assert_eq!(t.data, vec![0xc3, 0xa9, b'a', 32]);
    assert_eq!(t.write_str_at(2, 0, "\u{e9}\u{e9}"), Err(GridError::OutOfBounds));
}

#[test]
fn copy_and_blank_lines() {
    let mut t = terminal(2, 3);
    set_rows(&mut t, &["ab", "cd", "ef"]);
    t.copy_line(0, 2);
    assert_eq!(rows(&t), vec!["ab", "cd", "ab"]);
    t.blank_line(1);
    assert_eq!(rows(&t), vec!["ab", "  ", "ab"]);
}

#[test]
fn flip_phase_twice_restores_phase() {
    let mut t = terminal(2, 2);
    let start = t.gl.crt_phase;
    t.flip_phase();
    assert_ne!(t.gl.crt_phase, start);
    t.flip_phase();
    assert_eq!(t.gl.crt_phase, start);
}

#[test]
fn render_keeps_phase_and_picks_buffers_by_phase() {
    let mut t = terminal(2, 2);
    for _ in 0..5 {
        let _ = t.render();
    }
    assert_eq!(t.gl.crt_phase, Phase::A);
    let p = t.render();
    assert_eq!(p.decay_source, Framebuffer { fbo: 10, txo: 11 });
    assert_eq!(p.decay_target, Framebuffer { fbo: 12, txo: 13 });
    assert_eq!(p.beam_target, Framebuffer { fbo: 20, txo: 21 });
    t.flip_phase();
    let q = t.render();
    assert_eq!(q.decay_source, p.decay_target);
    assert_eq!(q.decay_target, p.decay_source);
}

#[test]
fn render_plan_carries_font_and_sizes() {
    let t = terminal(4, 3);
    let p = t.render();
    assert_eq!(p.glyph_texture, 7);
    assert_eq!(p.cell_height_px, 10);
    assert_eq!(p.font_char_count, 128);
    assert_eq!(p.font_first_char, 0);
    assert_eq!(p.data_dim, (4, 3));
    assert_eq!(p.present_dim, (640, 480));
    assert_eq!(p.data_texture, 3);
    assert_eq!(p.beam_vao, 1);
    assert_eq!(p.crt_vao, 2);
}

#[test]
fn framebuffer_texture_obj() {
    let f = Framebuffer { fbo: 4, txo: 9 };
    assert_eq!(f.texture_obj(), 9);
}

#[test]
fn font_geometry_checks() {
    assert_eq!(check_font_geometry((8, 10), (0, 128), 10240), Ok((1024, 10)));
    assert_eq!(check_font_geometry((8, 16), (32, 137), 13440), Ok((840, 16)));
    assert_eq!(check_font_geometry((8, 10), (0, 128), 10239), Err(FontError::BitmapSizeMismatch));
    assert_eq!(check_font_geometry((8, 10), (5, 4), 0), Err(FontError::InvalidBounds));
    assert_eq!(check_font_geometry((8, 10), (-1, 4), 400), Err(FontError::InvalidBounds));
    assert_eq!(check_font_geometry((8, 10), (0, 257), 20560), Err(FontError::InvalidBounds));
    assert_eq!(check_font_geometry((255, 255), (0, 256), 255 * 256 * 255), Ok((255 * 256, 255)));
    assert_eq!(check_font_geometry((8, 10), (3, 3), 0), Ok((0, 10)));
}

#[test]
fn prepare_font_reads_descriptor() {
    let glyphs = vec![1u8; 8 * 128 * 10];
    let up = prepare_font(&get_osborne_font(&glyphs)).unwrap();
    assert_eq!(up.atlas_size, (1024, 10));
    assert_eq!(up.cell_size, (8, 10));
    let short = vec![1u8; 100];
    assert_eq!(prepare_font(&get_osborne_font(&short)).err(), Some(FontError::BitmapSizeMismatch));
    let f = LoadedFont::new(&up, 42);
    assert_eq!(f.gl_texture, 42);
    assert_eq!(f.bounds, (0, 128));
}
