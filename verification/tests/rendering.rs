//! What is drawn, looked at on a screen.

use ratatui::backend::TestBackend;
use ratatui::style::Modifier;
use ratatui::text::{Line as Shown, Span as Piece};
use ratatui::widgets::{Block, Borders, Clear, List, Paragraph};
use ratatui::Terminal;

use treelix::clipboard::{ClipOp, Clipboard};
use treelix::layout::{centered_rect, frame_areas};
use treelix::path::Path;
use treelix::paths::PathSet;
use treelix::render::builder::{build_items, build_line, root_header, shorten_home, RenderOpts};
use treelix::render::decorators::{name_style, Decor};
use treelix::render::icons::file_icon;
use treelix::style::{Rect, Span, Style};
use treelix::theme::Theme;
use treelix::tree::node::NodeKind;
use treelix::tree::rows::Row;
use treelix::ui_overlays::{
    help_line_count, render_confirm, render_help, render_info, render_input, ConfirmKind,
    ConfirmState, HelpState, InfoState, InputKind, InputState, Popup,
};

fn row(name: &str, kind: NodeKind, ancestor_last: Vec<bool>) -> Row {
    Row {
        path: Path::new("/demo").join(&Path::new(name)),
        name: name.to_string(),
        kind,
        depth: ancestor_last.len().saturating_sub(1),
        expanded: false,
        has_children: kind.is_dir(),
        executable: false,
        git: None,
        diag: None,
        link_to: None,
        group_target: None,
        ancestor_last,
    }
}

fn plain(indent_markers: bool) -> RenderOpts {
    RenderOpts { icons_enabled: false, show_arrows: true, indent_markers }
}

fn drawn_style(s: Style) -> ratatui::style::Style {
    let mut out = ratatui::style::Style::default();
    if s.mods.bold {
        out = out.add_modifier(Modifier::BOLD);
    }
    if s.mods.reversed {
        out = out.add_modifier(Modifier::REVERSED);
    }
    out
}

fn drawn_line(line: &Vec<Span>) -> Shown<'static> {
    Shown::from(
        line.iter()
            .map(|s| Piece::styled(s.text.clone(), drawn_style(s.style)))
            .collect::<Vec<_>>(),
    )
}

fn line_text(line: &Vec<Span>) -> String {
    line.iter().map(|s| s.text.as_str()).collect()
}

#[test]
fn renders_names_to_buffer() {
    let rows = vec![
        row("src", NodeKind::Directory, vec![false]),
        row("README.md", NodeKind::File, vec![true]),
    ];
    let theme = Theme::default();
    let clipboard = Clipboard::default();
    let marks = PathSet::new();
    let selection = PathSet::new();
    let special: Vec<String> = Vec::new();
    let decor = Decor {
        clipboard: &clipboard,
        marks: &marks,
        selection: &selection,
        current_file: None,
        special_files: &special,
    };
    let items = build_items(&rows, &theme, &plain(false), &decor);
    let lines: Vec<Shown> = items.iter().map(drawn_line).collect();

    let backend = TestBackend::new(30, 4);
    let mut terminal = Terminal::new(backend).unwrap();
    terminal
        .draw(|f| f.render_widget(List::new(lines), f.area()))
        .unwrap();

    let text: String = terminal
        .backend()
        .buffer()
        .content()
        .iter()
        .map(|c| c.symbol())
        .collect();
    assert!(text.contains("src"), "buffer was: {text:?}");
    assert!(text.contains("README.md"), "buffer was: {text:?}");
}

#[test]
fn nvim_tree_style_uses_chevrons_not_connector_lines() {
    let theme = Theme::default();
    let clipboard = Clipboard::default();
    let marks = PathSet::new();
    let selection = PathSet::new();
    let special: Vec<String> = Vec::new();
    let decor = Decor {
        clipboard: &clipboard,
        marks: &marks,
        selection: &selection,
        current_file: None,
        special_files: &special,
    };

    // Top-level expanded dir + a nested file one level deeper.
    let mut dir = row("lua", NodeKind::Directory, vec![false]);
    dir.expanded = true;
    dir.has_children = true;
    let file = row("init.lua", NodeKind::File, vec![false, true]);

    let dir_line = line_text(&build_line(&dir, &theme, &plain(false), &decor));
    let file_line = line_text(&build_line(&file, &theme, &plain(false), &decor));

    // The directory leads with its chevron; no connector glyphs anywhere.
    assert!(dir_line.starts_with("v "), "dir line: {dir_line:?}");
    for g in ["│", "├", "└"] {
        assert!(
            !dir_line.contains(g) && !file_line.contains(g),
            "connector {g:?} found in {dir_line:?} / {file_line:?}"
        );
    }
    // Nested file: 2 spaces of ancestor indent + a 2-space (blank chevron)
    // own cell, keeping it aligned under its siblings.
    assert!(file_line.starts_with("    "), "file line: {file_line:?}");
    assert!(file_line.contains("init.lua"));
}

#[test]
fn indent_markers_mode_still_draws_connector_lines() {
    let theme = Theme::default();
    let clipboard = Clipboard::default();
    let marks = PathSet::new();
    let selection = PathSet::new();
    let special: Vec<String> = Vec::new();
    let decor = Decor {
        clipboard: &clipboard,
        marks: &marks,
        selection: &selection,
        current_file: None,
        special_files: &special,
    };
    let file = row("init.lua", NodeKind::File, vec![false, true]);
    let line = line_text(&build_line(&file, &theme, &plain(true), &decor));
    assert!(line.contains('│') || line.contains('└'), "line: {line:?}");
}

#[test]
fn cut_files_stand_out() {
    let theme = Theme::default();
    let mut clipboard = Clipboard::default();
    clipboard.set(ClipOp::Cut, vec![Path::new("/demo/a.txt")]);
    let marks = PathSet::new();
    let selection = PathSet::new();
    let special: Vec<String> = Vec::new();
    let decor = Decor {
        clipboard: &clipboard,
        marks: &marks,
        selection: &selection,
        current_file: None,
        special_files: &special,
    };
    let cut = row("a.txt", NodeKind::File, vec![true]);
    let other = row("b.txt", NodeKind::File, vec![true]);
    assert_ne!(
        name_style(&cut, &theme, &decor),
        name_style(&other, &theme, &decor)
    );
}

#[test]
fn icons_follow_the_kind() {
    assert_eq!(file_icon("x", NodeKind::Directory, false), "\u{f07b}");
    assert_eq!(file_icon("x", NodeKind::Directory, true), "\u{f07c}");
    assert_eq!(file_icon("main.rs", NodeKind::File, false), "\u{e7a8}");
}

#[test]
fn home_is_a_tilde() {
    let home: Option<&[u8]> = Some("/home/u".as_bytes());
    assert_eq!(shorten_home(&Path::new("/home/u/code"), home), "~/code");
    assert_eq!(shorten_home(&Path::new("/home/u"), home), "~");
    assert_eq!(shorten_home(&Path::new("/home/user"), home), "/home/user");
    assert_eq!(shorten_home(&Path::new("/x"), None), "/x");
    let theme = Theme::default();
    let header = root_header(&Path::new("/home/u/code"), home, &theme);
    assert_eq!(header.text, "~/code");
    assert_eq!(header.style, theme.root);
}

fn area(width: u16, height: u16) -> Rect {
    Rect { x: 0, y: 0, width, height }
}

#[test]
fn the_screen_is_divided_in_three() {
    let areas = frame_areas(area(40, 20));
    assert_eq!(areas.header, Rect { x: 0, y: 0, width: 40, height: 1 });
    assert_eq!(areas.list, Rect { x: 0, y: 1, width: 40, height: 18 });
    assert_eq!(areas.status, Rect { x: 0, y: 19, width: 40, height: 1 });
}

#[test]
fn the_middle_of_the_screen() {
    let middle = centered_rect(area(100, 40), 60, 50);
    assert_eq!(middle, Rect { x: 20, y: 10, width: 60, height: 20 });
}

#[test]
fn the_screen_is_divided_wherever_it_lies() {
    for y in [0u16, 7, 1000] {
        for h in 3u16..=70 {
            let areas = frame_areas(Rect { x: 4, y, width: 31, height: h });
            assert_eq!(areas.header, Rect { x: 4, y, width: 31, height: 1 });
            assert_eq!(areas.list, Rect { x: 4, y: y + 1, width: 31, height: h - 2 });
            assert_eq!(areas.status, Rect { x: 4, y: y + h - 1, width: 31, height: 1 });
        }
    }
}

#[test]
fn a_low_screen_is_the_trees_first() {
    let line = |y, height| Rect { x: 2, y, width: 9, height };
    for y in [0u16, 5, 900] {
        for h in 0u16..2 {
            let areas = frame_areas(line(y, h));
            assert_eq!(areas.header, line(y, 0));
            assert_eq!(areas.list, line(y, h));
            assert_eq!(areas.status, line(y + h, 0));
        }
        let areas = frame_areas(line(y, 2));
        let found = (areas.header, areas.list, areas.status);
        let below = (line(y, 1), line(y + 1, 1), line(y + 2, 0));
        let above = (line(y, 0), line(y, 1), line(y + 1, 1));
        assert!(found == below || found == above, "{found:?}");
    }
}

/// So many percent of a size, rounded, a half upwards.
fn share(size: u16, percent: u16) -> u16 {
    ((size as u32 * percent as u32 + 50) / 100) as u16
}

#[test]
fn the_middle_is_rounded_at_both_ends() {
    assert_eq!(
        centered_rect(area(101, 41), 60, 50),
        Rect { x: 20, y: 10, width: 61, height: 21 }
    );
    for (px, py) in [(60u16, 50u16), (100, 100), (0, 0), (33, 67), (75, 1), (99, 13)] {
        for w in (0u16..=130).chain([1000, 65535]) {
            let h = w / 3 * 2;
            let (mx, my) = ((100 - px) / 2, (100 - py) / 2);
            let expected = Rect {
                x: share(w, mx),
                y: share(h, my),
                width: share(w, mx + px) - share(w, mx),
                height: share(h, my + py) - share(h, my),
            };
            assert_eq!(centered_rect(area(w, h), px, py), expected, "{w} {h} {px} {py}");
        }
    }
    assert_eq!(
        centered_rect(Rect { x: 7, y: 3, width: 10, height: 10 }, 60, 50),
        Rect { x: 9, y: 6, width: 6, height: 5 }
    );
}

fn draw_popup(popup: &Popup, terminal: &mut Terminal<TestBackend>) {
    let at = ratatui::layout::Rect {
        x: popup.area.x,
        y: popup.area.y,
        width: popup.area.width,
        height: popup.area.height,
    };
    let lines: Vec<Shown> = popup.lines.iter().map(drawn_line).collect();
    let mut para = Paragraph::new(lines).scroll((popup.scroll_rows, popup.scroll_cols));
    if popup.border.is_some() {
        let mut block = Block::default().borders(Borders::ALL);
        if let Some(title) = &popup.title {
            block = block.title(title.text.clone());
        }
        para = para.block(block);
    }
    terminal
        .draw(|f| {
            f.render_widget(Clear, at);
            f.render_widget(para, at);
        })
        .unwrap();
}

fn render_row(width: u16, state: &InputState) -> (String, bool) {
    let backend = TestBackend::new(width, 3);
    let mut terminal = Terminal::new(backend).unwrap();
    let popup = render_input(area(width, 3), &Theme::default(), state);
    draw_popup(&popup, &mut terminal);
    let buf = terminal.backend().buffer();
    let row: String = (0..width)
        .map(|x| buf.cell((x, 1)).unwrap().symbol().to_string())
        .collect();
    let cursor_visible = (0..width).any(|x| {
        buf.cell((x, 1))
            .unwrap()
            .modifier
            .contains(Modifier::REVERSED)
    });
    (row, cursor_visible)
}

#[test]
fn short_input_renders_from_start() {
    let state = InputState::new("New file", "notes.md".into(), InputKind::Create);
    let (row, cursor_visible) = render_row(20, &state);
    assert!(row.contains("notes.md"), "row was: {row:?}");
    assert!(cursor_visible);
}

#[test]
fn long_input_scrolls_to_keep_cursor_visible() {
    // 29 chars in a popup with 18 inner columns: without horizontal
    // scroll the tail (and the end-of-input cursor) would be clipped at
    // the right border and typing would be invisible.
    let state = InputState::new(
        "New file",
        "src/deeply/nested/longname.rs".into(),
        InputKind::Create,
    );
    let (row, cursor_visible) = render_row(20, &state);
    assert!(
        row.contains("longname.rs"),
        "tail near the cursor must be visible, row was: {row:?}"
    );
    assert!(
        !row.contains("src/"),
        "start should have scrolled out of view, row was: {row:?}"
    );
    assert!(cursor_visible);
}

#[test]
fn cursor_moved_to_start_scrolls_back_to_show_beginning() {
    let mut state = InputState::new(
        "Rename",
        "src/deeply/nested/longname.rs".into(),
        InputKind::Rename { path: Path::new("x") },
    );
    state.cursor = 0;
    let (row, _) = render_row(20, &state);
    assert!(
        row.contains("src/deeply"),
        "with the cursor at the start the beginning must be visible, row was: {row:?}"
    );
}

#[test]
fn ascii_cursor_visible_at_every_width_and_length() {
    for width in 5..=24u16 {
        for n in 1..=40usize {
            let text: String = "abcdefghij".chars().cycle().take(n).collect();
            let state = InputState::new("New", text, InputKind::Create);
            let (row, cursor_visible) = render_row(width, &state);
            assert!(cursor_visible, "cursor clipped: width={width} n={n} row={row:?}");
        }
    }
}

#[test]
fn wide_char_cursor_visible_at_every_width_and_length() {
    // Double-width chars exercise the boundary-alignment path: an
    // unaligned scroll offset makes ratatui shift the line one cell
    // right and clip the cursor block.
    for width in 6..=24u16 {
        for n in 1..=14usize {
            let text: String = "日本語のファイル名です前".chars().cycle().take(n).collect();
            let state = InputState::new("New", text.clone(), InputKind::Create);
            let (row, cursor_visible) = render_row(width, &state);
            assert!(
                cursor_visible,
                "cursor clipped: width={width} n={n} buffer={text:?} row={row:?}"
            );
        }
    }
}

#[test]
fn a_question_lies_at_the_bottom() {
    let state = ConfirmState {
        prompt: "delete a.txt?".to_string(),
        kind: ConfirmKind::Delete(Path::new("/r/a.txt")),
    };
    let popup = render_confirm(area(40, 20), &Theme::default(), &state);
    assert_eq!(popup.area, Rect { x: 0, y: 16, width: 40, height: 4 });
    assert_eq!(line_text(&popup.lines[0]), "delete a.txt?");
    assert_eq!(line_text(&popup.lines[1]), "[y]es  [n]o");
    assert!(popup.wrap);
}

#[test]
fn info_lies_in_the_middle() {
    let state = InfoState {
        title: "a.txt".to_string(),
        lines: vec!["path: /r/a.txt".to_string()],
    };
    let popup = render_info(area(100, 40), &Theme::default(), &state);
    assert_eq!(popup.area, Rect { x: 20, y: 10, width: 60, height: 20 });
    assert_eq!(popup.title.map(|t| t.text), Some(" a.txt ".to_string()));
    assert_eq!(line_text(&popup.lines[0]), "path: /r/a.txt");
}

#[test]
fn help_fills_the_screen() {
    let (body, footer) = render_help(area(40, 20), &Theme::default(), &HelpState { scroll: 3 });
    assert_eq!(body.area, Rect { x: 2, y: 1, width: 37, height: 17 });
    assert_eq!(body.scroll_rows, 3);
    assert_eq!(body.lines.len(), help_line_count(37) as usize);
    assert_eq!(footer.area, Rect { x: 2, y: 19, width: 37, height: 1 });
    assert_eq!(line_text(&footer.lines[0]), "press any key to close");
}
