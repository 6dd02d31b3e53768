use difv::app::{App, Task};
use difv::commits::{Commit, Commits, Shape};
use difv::config::{Config, DEFAULT_SPLIT};
use difv::git::{ChangedFile, FileContent, Status};
use difv::input::{Key, KeyPress, Rect};
use difv::ruler::Mark;
use difv::screen::Pane;
use difv::settings::ALL;
use difv::ui::{
    draw, draw_commits, draw_cursor, draw_files, draw_footer, draw_help, draw_ruler, draw_settings,
    draw_side, overlay, refresh_after_wide, CellLook, Framed, Ink, Paper, Places, Run, BUTTONS,
    DIRTY_MARK, HELP, TARGET_MARK,
};
use ratatui::buffer::{Buffer, Cell, CellDiffOption};
use ratatui::layout::Rect as Area;
use ratatui::style::{Color, Style};
use ratatui::text::{Line, Span};
use ratatui::widgets::{Block, Clear, List, ListItem, ListState, Paragraph, StatefulWidget, Widget};
use unicode_width::UnicodeWidthStr;

const BAND: Color = Color::Rgb(1, 2, 3);

fn area(rect: Rect) -> Area {
    Area { x: rect.x, y: rect.y, width: rect.width, height: rect.height }
}

fn line(runs: &[Run]) -> Line<'_> {
    let spans: Vec<Span> = runs
        .iter()
        .map(|run| {
            let style = match run.style.paper {
                Paper::Plain => Style::new(),
                Paper::Deleted => Style::new().bg(Color::Red),
                Paper::Added => Style::new().bg(Color::Green),
                Paper::Phantom => Style::new().bg(Color::Black),
                _ => Style::new().bg(Color::Blue),
            };
            Span::styled(run.text.as_str(), style)
        })
        .collect();
    Line::from(spans)
}

fn block(title: &str) -> Block<'static> {
    Block::bordered().title(format!(" {title} "))
}

fn framed(buffer: &mut Buffer, framed: &Framed, at: Rect) {
    let lines: Vec<Line> = framed.lines.iter().map(|runs| line(runs)).collect();
    Paragraph::new(lines).block(block(&framed.title)).render(area(at), buffer);
}

/// A frame, drawn the way the terminal would get it.
struct Screen {
    width: u16,
    height: u16,
    labels: (String, String),
    commits: Commits,
    commits_focused: bool,
}

impl Screen {
    fn new(width: u16, height: u16) -> Self {
        Screen {
            width,
            height,
            labels: ("HEAD".to_string(), "Working Tree".to_string()),
            commits: Commits::new("HEAD".to_string()),
            commits_focused: false,
        }
    }

    fn render(&self, app: &mut App) -> (Buffer, Places) {
        let whole = Rect { x: 0, y: 0, width: self.width, height: self.height };
        let mut buffer = Buffer::empty(area(whole));
        let places = draw(app, whole, DEFAULT_SPLIT);
        if !app.screen.files_hidden {
            framed(&mut buffer, &draw_files(app), places.files);
            let commits = draw_commits(&self.commits, places.commits, self.commits_focused);
            framed(&mut buffer, &commits, places.commits);
        }
        framed(&mut buffer, &draw_side(app, places.old, true, &self.labels.0), places.old);
        framed(&mut buffer, &draw_side(app, places.new, false, &self.labels.1), places.new);
        for cell in draw_ruler(app, places.new) {
            let at = &mut buffer[(cell.at.x, cell.at.y)];
            match cell.mark {
                Some(mark) => {
                    let (r, g, b) = if cell.banded { mark.lit() } else { mark.color() };
                    at.set_symbol(" ").set_bg(Color::Rgb(r, g, b));
                }
                None if cell.banded => {
                    at.set_bg(BAND);
                }
                None => {}
            }
        }
        if let Some(panel) = draw_settings(app, places.body) {
            Clear.render(area(panel.area), &mut buffer);
            block("Settings").render(area(panel.area), &mut buffer);
            let items: Vec<ListItem> =
                panel.lines.iter().map(|runs| ListItem::new(line(runs))).collect();
            let mut state = ListState::default().with_selected(Some(panel.selected));
            StatefulWidget::render(List::new(items), area(panel.list), &mut buffer, &mut state);
            if let Some((at, lines)) = panel.explain {
                let lines: Vec<Line> = lines.iter().map(|runs| line(runs)).collect();
                Paragraph::new(lines).render(area(at), &mut buffer);
            }
        }
        if let Some(panel) = draw_help(app, places.body) {
            Clear.render(area(panel.area), &mut buffer);
            let items: Vec<ListItem> =
                panel.lines.iter().map(|runs| ListItem::new(line(runs))).collect();
            let list = List::new(items).block(block(&panel.title));
            let mut state = ListState::default().with_offset(panel.offset);
            StatefulWidget::render(list, area(panel.area), &mut buffer, &mut state);
        }
        let history = if self.commits_focused { Some(&self.commits) } else { None };
        let footer = draw_footer(app, places.footer, history);
        Paragraph::new(line(&footer.line)).render(area(places.footer), &mut buffer);
        if !footer.position.is_empty() {
            Paragraph::new(footer.position.as_str())
                .right_aligned()
                .render(area(places.footer), &mut buffer);
        }
        for y in 0..self.height {
            let row: Vec<CellLook> = (0..self.width)
                .map(|x| CellLook {
                    cells: buffer[(x, y)].symbol().width(),
                    blank: buffer[(x, y)] == Cell::EMPTY,
                })
                .collect();
            for x in refresh_after_wide(&row) {
                buffer[(x as u16, y)].set_diff_option(CellDiffOption::AlwaysUpdate);
            }
        }
        (buffer, places)
    }

    fn shown(&self, app: &mut App) -> String {
        let (buffer, _) = self.render(app);
        (0..self.height)
            .map(|y| (0..self.width).map(|x| buffer[(x, y)].symbol()).collect::<String>() + "\n")
            .collect()
    }
}

fn nothing() -> App {
    App::with(Vec::new(), Config::default(), false)
}

fn opened(committed: &str, working: &str) -> App {
    let file = ChangedFile {
        path: "file.txt".to_string(),
        old_path: None,
        status: Status::Modified,
        old_blob: None,
        new_blob: None,
    };
    let mut app = App::with(vec![file], Config::default(), false);
    let content = FileContent::decode(working.as_bytes().to_vec());
    app.load_diff(committed, &content, true, None);
    app.screen.viewport_height = 20;
    app.screen.focus = Pane::New;
    app
}

fn press(app: &mut App, code: Key, ctrl: bool) -> Task {
    app.on_key(KeyPress { code, ctrl, alt: false, shift: false }, 1_000_000_000)
}

/// The panel is the one widget drawn over the others, so it is worth
/// checking that it actually lands on the screen.
#[test]
fn the_settings_panel_renders_over_the_diff() {
    let mut app = nothing();
    let screen = Screen::new(80, 20);

    let plain = screen.shown(&mut app);
    assert!(!plain.contains("Settings"));

    app.screen.settings = Some(1);
    let open = screen.shown(&mut app);
    assert!(open.contains("Settings"), "{open}");
    // A name and a value a reader can act on, not a struct definition...
    assert!(open.contains("Indent width"), "{open}");
    assert!(open.contains("< 2 spaces >"), "{open}");
    // ...with the key it writes still findable, for editing the file by hand.
    assert!(open.contains("indent_width in config.toml"), "{open}");
    assert!(
        open.contains("Spaces per indent"),
        "the selected row explains itself: {open}"
    );
    // The help is indented by its area, so it starts in the same column as
    // the setting names — and a wrapped line keeps that indent rather than
    // starting hard against the border.
    let col = |needle: &str| {
        let line = open.lines().find(|line| line.contains(needle)).unwrap();
        line.find(needle).unwrap()
    };
    assert_eq!(col("indent_width in config.toml"), col("Indent width"));

    app.screen.settings = None;
    app.screen.help = true;
    let open = screen.shown(&mut app);
    assert!(open.contains("Keys"), "{open}");
    assert!(
        open.contains("Hide / show the file and commit lists"),
        "{open}"
    );
}

/// What a terminal shows after ratatui's diff is applied to it. Ratatui's
/// `TestBackend` sets cells one by one; a terminal does not. A wide glyph
/// there covers two cells, and a write over either half blanks the other
/// while keeping its background — which is what a diff that never revisits
/// that half leaves on screen as a stray block. The model is that rule and
/// nothing else.
struct Terminal {
    width: usize,
    /// Per cell: the background, and which cell's glyph covers it.
    cells: Vec<(Color, Option<usize>)>,
}

impl Terminal {
    fn new(width: usize, height: usize) -> Self {
        Self {
            width,
            cells: vec![(Color::Reset, None); width * height],
        }
    }

    fn apply(&mut self, updates: &[(u16, u16, &Cell)]) {
        for (x, y, cell) in updates {
            let at = *y as usize * self.width + *x as usize;
            let wide = cell.symbol().width() > 1;
            for i in at..=at + wide as usize {
                // Whatever glyph was covering this cell loses its other half.
                if let Some(other) = self.cells[i].1 {
                    self.cells[other].1 = None;
                }
                self.cells[i].1 = None;
            }
            self.cells[at] = (cell.bg, None);
            if wide {
                self.cells[at + 1] = (cell.bg, Some(at));
                self.cells[at].1 = Some(at + 1);
            }
        }
    }

    /// The cells whose background is not what `wanted` would show.
    fn wrong(&self, wanted: &Buffer) -> Vec<(usize, usize)> {
        let mut wrong = Vec::new();
        let mut covered = None;
        for (i, cell) in wanted.content.iter().enumerate() {
            let want = match covered.take() {
                Some(bg) => bg,
                None => {
                    if cell.symbol().width() > 1 {
                        covered = Some(cell.bg);
                    }
                    cell.bg
                }
            };
            if self.cells[i].0 != want {
                wrong.push((i % self.width, i / self.width));
            }
        }
        wrong
    }
}

/// A pane moving one cell to the left slides every wide glyph on it over
/// the cell the glyph's own right half used to be in. The terminal blanks
/// what is left of the old glyph — its right half, one cell further on —
/// but keeps that cell's background, and ratatui's diff never writes that
/// cell: in both of its buffers it is the blank that follows a wide glyph.
/// The block that leaves behind is what a divider drag, a `Ctrl+B` or a
/// scroll scatters over a CJK diff.
#[test]
fn a_pane_moving_a_cell_leaves_no_stray_background_behind() {
    let mut app = opened("a\n", "加入的一行。\n");
    let (width, height) = (140, 8);
    let screen = Screen::new(width, height);

    // Weights that sum to the width are cell widths; the second layout
    // moves the Before and Current panes one cell left each.
    app.screen.weights = [30, 50, 60];
    let (before, _) = screen.render(&mut app);
    app.screen.weights = [29, 50, 61];
    let (after, _) = screen.render(&mut app);

    let mut terminal = Terminal::new(width as usize, height as usize);
    terminal.apply(&Buffer::empty(before.area).diff(&before));
    assert!(terminal.wrong(&before).is_empty(), "the first frame is whole");
    terminal.apply(&before.diff(&after));
    let wrong = terminal.wrong(&after);
    assert!(wrong.is_empty(), "stray background at (x, y): {wrong:?}");
}

/// The file list carries an unsaved mark too, but `Ctrl+B` hides it, and the
/// pane holding the edits is the last place that mark may vanish from.
#[test]
fn the_current_pane_is_marked_while_the_buffer_is_unsaved() {
    let mut app = opened("a\n", "b\n");
    let screen = Screen::new(80, 12);
    assert!(!screen.shown(&mut app).contains("* Working Tree"));

    app.screen.files_hidden = true;
    press(&mut app, Key::Char('!'), false);
    let dirty = screen.shown(&mut app);
    assert!(dirty.contains("* Working Tree"), "{dirty}");

    assert!(matches!(press(&mut app, Key::Char('s'), true), Task::Save));
    assert!(app.save(&FileContent::decode(b"b\n".to_vec())).is_some());
    app.saved(None, None);
    assert!(!screen.shown(&mut app).contains("* Working Tree"));
}

/// The titles say what is being compared, so a revision comparison is not
/// mistaken for the working tree.
#[test]
fn the_pane_titles_name_what_they_compare() {
    let second = "0a1b2c3".to_string();
    let mut screen = Screen::new(100, 12);
    let labels = |revs: &[&str], worktree: bool| {
        Shape::of(&revs.iter().map(|rev| rev.to_string()).collect::<Vec<_>>()).labels(worktree)
    };

    screen.labels = labels(&[], true);
    let plain = screen.shown(&mut opened("two\n", "three\n"));
    assert!(plain.contains("HEAD / Before"), "{plain}");
    assert!(plain.contains("Working Tree / Current"), "{plain}");

    screen.labels = labels(&[&second], true);
    let one = screen.shown(&mut opened("two\n", "three\n"));
    assert!(one.contains(&format!("{second} / Before")), "{one}");
    assert!(one.contains("Working Tree / Current"), "{one}");

    screen.labels = labels(&[&format!("HEAD~1..{second}")], false);
    let range = screen.shown(&mut opened("one\n", "two\n"));
    assert!(range.contains("HEAD~1 / Before"), "{range}");
    assert!(range.contains(&format!("{second} / Current")), "{range}");
    // A revision on the right is read-only, so it never carries the mark
    // an unsaved buffer would.
    assert!(!range.contains(DIRTY_MARK), "{range}");
}

/// The Commits pane sits under the Changes list, with the Working tree
/// row above the history, and says which row the reader is on and which
/// commit is being compared as two different things.
#[test]
fn the_commits_pane_shows_the_cursor_and_the_target_apart() {
    let mut app = opened("two\n", "three\n");
    let mut screen = Screen::new(100, 16);
    screen.commits_focused = true;

    let shown = screen.shown(&mut app);
    assert!(shown.contains("Commits"), "{shown}");
    assert!(shown.contains("Working tree"), "{shown}");

    // The Commits pane is under the Changes pane, in the same column.
    let (_, places) = screen.render(&mut app);
    assert_eq!(places.files.x, places.commits.x);
    assert_eq!(places.files.bottom(), places.commits.y);

    // Load the history, put the cursor on a commit and the target on the
    // working tree: two rows, two marks.
    let height = places.commits.height.saturating_sub(2) as usize;
    screen.commits.rows = ["second commit", "init"]
        .iter()
        .map(|subject| Commit {
            hash: format!("{subject:0>40}"),
            short: "1234567".to_string(),
            subject: subject.to_string(),
        })
        .collect();
    screen.commits.go_to(1, height);
    let shown = screen.shown(&mut app);
    assert!(shown.contains("second commit"), "{shown}");
    let row = |needle: &str| shown.lines().find(|l| l.contains(needle)).unwrap();
    assert!(
        row("Working tree").contains(TARGET_MARK),
        "the target is the working tree: {shown}"
    );
    assert!(
        !row("second commit").contains(TARGET_MARK),
        "which is not where the cursor is: {shown}"
    );
}

/// A history of thousands is drawn a screen at a time: the rows behind
/// the ones on show are never laid out.
#[test]
fn only_the_visible_commits_are_drawn() {
    let mut app = opened("a\n", "b\n");
    let mut screen = Screen::new(100, 16);
    screen.commits.rows = (0..1000)
        .map(|n| Commit {
            hash: format!("{n:040}"),
            short: format!("{n:07}"),
            subject: format!("commit {n}"),
        })
        .collect();
    screen.commits.exhausted = true;

    let (_, places) = screen.render(&mut app);
    let shown = screen.shown(&mut app);
    let height = places.commits.height.saturating_sub(2) as usize;
    assert!(height < 20, "the pane is a fraction of the terminal");
    assert!(shown.contains("commit 0"), "the first row: {shown}");
    assert!(
        !shown.contains(&format!("commit {height}")),
        "and nothing past the pane: {shown}"
    );
    assert_eq!(draw_commits(&screen.commits, places.commits, false).lines.len(), height);
}

/// A terminal shorter than a panel must scroll it, not hide the rows below
/// the fold while the keys still reach them.
#[test]
fn the_overlays_stay_usable_on_a_short_terminal() {
    let mut app = nothing();
    let screen = Screen::new(60, 7);

    // Four rows of list, no room left for the explanation: the last
    // setting is off-panel until it is selected, and then the list has to
    // have scrolled to show its name.
    app.screen.settings = Some(ALL.len() - 1);
    let short = screen.shown(&mut app);
    assert!(
        short.contains("Ignore scrolling after a keystroke"),
        "{short}"
    );
    assert!(
        !short.contains("config.toml"),
        "explanation yields to the list: {short}"
    );

    app.screen.settings = None;
    app.screen.help = true;
    let short = screen.shown(&mut app);
    assert!(
        short.contains("more"),
        "the title says there is more: {short}"
    );
    assert!(!short.contains("Quit"), "{short}");

    // The arrows reach the rest instead of closing it.
    for _ in 0..HELP.len() {
        press(&mut app, Key::Down, false);
    }
    assert!(app.screen.help, "arrows scroll rather than close");
    let short = screen.shown(&mut app);
    assert!(short.contains("Quit"), "{short}");

    press(&mut app, Key::Esc, false);
    assert!(!app.screen.help);
    assert_eq!(app.screen.help_scroll, 0, "reopening starts at the top");
}

/// The footer's buttons are only clickable because it records where it drew
/// them, which is the kind of thing that rots silently.
#[test]
fn the_footer_buttons_land_where_the_footer_says_they_are() {
    let mut app = nothing();
    let screen = Screen::new(80, 10);
    let footer = screen.shown(&mut app).lines().last().unwrap().to_string();
    assert!(footer.contains(BUTTONS[0]), "{footer}");
    assert!(footer.contains(BUTTONS[1]), "{footer}");
    for (index, label) in BUTTONS.iter().enumerate() {
        let rect = app.screen.buttons[index];
        assert_eq!(rect.y, 9, "the footer is the last row");
        assert_eq!(rect.width as usize, label.chars().count());
        // The recorded start is where the label actually starts.
        assert_eq!(&footer[rect.x as usize..][..rect.width as usize], *label);
    }
}

/// The whole pass, on a real buffer: the marks land on the Current pane's
/// right border, in the right cells, and the band says where the view is.
#[test]
fn the_ruler_marks_the_border_of_the_current_pane() {
    let committed: Vec<String> = (0..100).map(|i| format!("line {i}\n")).collect();
    let mut working = committed.clone();
    working[4] = "changed\n".to_string();
    working.insert(90, "added\n".to_string());
    let mut app = opened(&committed.concat(), &working.concat());

    let screen = Screen::new(80, 20);
    let (buffer, _) = screen.render(&mut app);

    // The rightmost column of the body, and the rows between the corners.
    let x = 79;
    let ruler: Vec<Color> = (1..18).map(|y| buffer[(x, y)].bg).collect();

    // The change near the top of the file is near the top of the ruler and
    // the one near the end near the end. The view is at the top, so the
    // first is inside the band and lit, the second outside it and not.
    let rgb = |(r, g, b): (u8, u8, u8)| Color::Rgb(r, g, b);
    let at = |color: Color| ruler.iter().position(|bg| *bg == color);
    assert_eq!(at(rgb(Mark::Modified.lit())), Some(0), "{ruler:?}");
    assert_eq!(at(rgb(Mark::Modified.color())), None, "{ruler:?}");
    assert_eq!(at(rgb(Mark::Added.color())), Some(15), "{ruler:?}");
    // A banded cell with no mark is the band's own colour, and the bottom
    // of the ruler is bare border.
    assert_eq!(ruler[1], BAND, "{ruler:?}");
    assert_eq!(*ruler.last().unwrap(), Color::Reset, "{ruler:?}");
    assert_eq!(ruler.len(), 17, "one cell per row between the corners");
    // The pane's own border is still a border everywhere else.
    assert_eq!(buffer[(x, 0)].symbol(), "┐");
    assert_eq!(buffer[(x, 18)].symbol(), "┘");
    // Nothing was taken from the text: the pane to the left of the ruler
    // still holds the diff.
    assert!(screen.shown(&mut app).contains("changed"));
}

/// The widths follow the weights, and hiding the lists gives their room to the
/// sides.
#[test]
fn the_layout_follows_the_weights() {
    let mut app = opened("a\n", "b\n");
    let whole = Rect { x: 0, y: 0, width: 100, height: 20 };
    let places = draw(&mut app, whole, [1, 1]);
    assert_eq!(places.footer, Rect { x: 0, y: 19, width: 100, height: 1 });
    assert_eq!(places.body, Rect { x: 0, y: 0, width: 100, height: 19 });
    let widths = [places.files.width, places.old.width, places.new.width];
    assert_eq!(widths, [26, 37, 37]);
    assert_eq!(places.old.x, 26);
    assert_eq!(places.files.height + places.commits.height, 19);
    assert_eq!(app.screen.panes, [places.files, places.old, places.new]);
    assert_eq!(app.screen.viewport_height, 17);
    app.screen.files_hidden = true;
    let places = draw(&mut app, whole, [1, 1]);
    assert_eq!([places.files.width, places.old.width, places.new.width], [0, 50, 50]);
}

/// A panel is centred, and no larger than what it floats over.
#[test]
fn a_panel_is_centred_and_clamped() {
    let body = Rect { x: 10, y: 2, width: 80, height: 20 };
    assert_eq!(overlay(body, 40, 8), Rect { x: 30, y: 7, width: 40, height: 10 });
    assert_eq!(overlay(body, 200, 50), body);
}

/// The terminal cursor stands where the edit cursor is, and nowhere once that is
/// scrolled away.
#[test]
fn the_terminal_cursor_follows_the_edit_cursor() {
    let mut app = opened("a\n", "one\n\ttwo\n");
    let area = Rect { x: 40, y: 0, width: 20, height: 10 };
    app.screen.viewport_height = 8;
    app.buffers[0].buffer.move_cursor_to(1, 2);
    // The border, a digit and a space, a tab of four columns and one letter.
    let at = draw_cursor(&app, area).unwrap();
    assert_eq!((at.x, at.y), (40 + 1 + 2 + 4 + 1, 2));
    app.screen.hscroll = 6;
    assert_eq!(draw_cursor(&app, area), None);
    app.screen.hscroll = 0;
    app.screen.focus = Pane::Old;
    assert_eq!(draw_cursor(&app, area), None);
}

/// What the footer says comes after the buttons, cut to the room there is, with the
/// worst first.
#[test]
fn the_footer_says_the_worst_first() {
    let mut app = opened("a\n", "b\n");
    let area = Rect { x: 0, y: 9, width: 60, height: 1 };
    app.screen.viewport_height = 8;
    let text = |app: &mut App| draw_footer(app, area, None).line.last().unwrap().text.clone();
    assert_eq!(text(&mut app), BUTTONS[1]);
    assert_eq!(draw_footer(&mut app, area, None).position, "1-1/1 ");
    app.screen.stale = true;
    assert_eq!(text(&mut app), "  File changed on disk — `Esc` ");
    app.notice = Some("Saved file.txt".to_string());
    assert_eq!(text(&mut app), "  Saved file.txt");
    app.error = Some("no git".to_string());
    let footer = draw_footer(&mut app, area, None);
    assert_eq!(footer.line.last().unwrap().text, "  no git");
    assert_eq!(footer.line.last().unwrap().style.ink, Ink::Red);
    app.screen.prompt = Some(difv::screen::Prompt::Quit);
    assert_eq!(text(&mut app), " Unsaved changes. Quit anyway? (y/n)");
    assert_eq!(app.screen.buttons[0].width, 0);
}

/// The list marks unsaved work and a file rewritten under it.
#[test]
fn the_file_list_marks_what_needs_attention() {
    let mut app = opened("a\n", "b\n");
    let words = |app: &App| {
        draw_files(app).lines[0].iter().map(|run| run.text.clone()).collect::<String>()
    };
    assert_eq!(words(&app), " M file.txt");
    assert_eq!(draw_files(&app).title, "Changes (1)");
    press(&mut app, Key::Char('x'), false);
    assert_eq!(words(&app), "*M file.txt");
    app.screen.stale = true;
    assert_eq!(words(&app), "!M file.txt");
    assert_eq!(words(&nothing()), "No changes");
    assert_eq!(draw_files(&nothing()).title, "Changes");
}

/// A row of a side: its number, its text, its colour, and filler where the side has
/// no line.
#[test]
fn a_side_shows_numbers_text_and_filler() {
    let app = opened("one\ntwo\n", "one\nTWO\nthree\n");
    let area = Rect { x: 0, y: 0, width: 12, height: 6 };
    let old = draw_side(&app, area, true, "HEAD");
    assert_eq!(old.title, "HEAD / Before");
    let texts = |framed: &Framed| {
        framed
            .lines
            .iter()
            .map(|runs| runs.iter().map(|run| run.text.clone()).collect::<String>())
            .collect::<Vec<_>>()
    };
    assert_eq!(texts(&old), ["1 one", "2 two", "          "]);
    assert_eq!(old.lines[1][1].style.paper, Paper::Deleted);
    assert_eq!(old.lines[2][0].style.paper, Paper::Phantom);
    let new = draw_side(&app, area, false, "Working Tree");
    assert_eq!(texts(&new), ["1 one", "2 TWO", "3 three"]);
    assert_eq!(new.lines[0][1].style.paper, Paper::Plain);
    assert_eq!(new.lines[2][1].style.paper, Paper::Added);
    assert!(new.focused && !old.focused);
}

/// Only the blank two cells on from a wide glyph is drawn again.
#[test]
fn only_the_blank_after_a_wide_glyph_is_drawn_again() {
    let look = |cells, blank| CellLook { cells, blank };
    let row = vec![look(2, false), look(1, true), look(1, true), look(1, true), look(2, false), look(1, true), look(1, false)];
    assert_eq!(refresh_after_wide(&row), vec![2]);
    assert!(refresh_after_wide(&vec![look(2, false)]).is_empty());
}

/// A subject gets the cells that the mark and the short id leave, counted in cells: a
/// wide id leaves less.
#[test]
fn a_subject_is_cut_to_the_cells_that_are_left() {
    let mut commits = Commits::new("main".to_string());
    commits.rows = vec![Commit {
        hash: "h".to_string(),
        short: "中a".to_string(),
        subject: "subject of a commit".to_string(),
    }];
    commits.scroll = 1;
    let area = Rect { x: 0, y: 0, width: 14, height: 3 };
    let framed = draw_commits(&commits, area, true);
    assert_eq!(framed.title, "Commits (main)");
    let texts: Vec<&str> = framed.lines[0].iter().map(|run| run.text.as_str()).collect();
    // Twelve cells inside: one for the mark, three for the id and one behind it.
    assert_eq!(texts, [" ", "中a ", "subject"]);
}

/// While the history has the focus, the footer says where its cursor is.
#[test]
fn the_footer_says_where_the_history_is() {
    let mut app = opened("a\n", "b\n");
    let area = Rect { x: 0, y: 9, width: 60, height: 1 };
    let commits = Commits::new("HEAD".to_string());
    let expected = format!("{} ", commits.position());
    assert_eq!(draw_footer(&mut app, area, Some(&commits)).position, expected);
}
