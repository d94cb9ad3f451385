//! What live progress leaves on the screen.

use offcut::output::Terminal;
use offcut::progress::{DiscoveryProgress, DiscoveryProgressProject, ProgressWriter};

/// A screen of rows, one cell per character, that replays what is drawn.
struct Screen {
    rows: Vec<Vec<char>>,
    y: usize,
    x: usize,
}

impl Screen {
    fn new() -> Self {
        Screen { rows: vec!["$ offcut".chars().collect(), Vec::new()], y: 1, x: 0 }
    }

    fn replay(&mut self, text: &str) {
        let mut chars = text.chars();
        while let Some(c) = chars.next() {
            match c {
                '\r' => self.x = 0,
                '\n' => {
                    self.y += 1;
                    self.x = 0;
                    if self.y == self.rows.len() {
                        self.rows.push(Vec::new());
                    }
                }
                '\u{1b}' => {
                    let sequence: String = chars.by_ref().take(3).collect();
                    match sequence.as_str() {
                        "[2K" => self.rows[self.y].clear(),
                        "[1A" => self.y -= 1,
                        other => panic!("unknown sequence {other:?}"),
                    }
                }
                _ => {
                    while self.rows[self.y].len() <= self.x {
                        self.rows[self.y].push(' ');
                    }
                    self.rows[self.y][self.x] = c;
                    self.x += 1;
                }
            }
        }
    }

    fn text(&self) -> Vec<String> {
        let mut all: Vec<String> = self
            .rows
            .iter()
            .map(|r| r.iter().collect::<String>().trim_end().to_string())
            .collect();
        while all.last().is_some_and(|l| l.is_empty()) {
            all.pop();
        }
        all
    }
}

fn writer() -> ProgressWriter {
    let t = Terminal {
        json_mode: false,
        stdout_is_tty: true,
        stderr_is_tty: true,
        term: None,
        no_color: false,
        clicolor: None,
    };
    ProgressWriter::new(&t, 60)
}

fn screen_of(pw: &ProgressWriter) -> Screen {
    let mut screen = Screen::new();
    screen.replay(&pw.writer);
    screen
}

#[test]
fn a_drawing_replaces_the_one_before_it() {
    let mut pw = writer();
    pw.update_phase("sizing", 1, 2, "/workspace/a/very/long/path/to/a/project");
    pw.update_phase("sizing", 2, 2, "/b");
    assert_eq!(screen_of(&pw).text(), vec!["$ offcut", "⠙ sizing 2/2: /b"]);
}

#[test]
fn a_line_replaces_a_panel_and_a_panel_a_line() {
    let recent = [DiscoveryProgressProject { path: "/w/app", marker: ".git" }];
    let state = DiscoveryProgress {
        current_path: "/w",
        dirs_scanned: 3,
        projects_found: 1,
        indexed_bytes: 2048,
        recent_projects: &recent,
    };
    let mut pw = writer();
    pw.update("/w");
    pw.update_discovery(&state);
    let panel = screen_of(&pw).text();
    assert_eq!(panel.len(), 1 + pw.live_rows);
    assert!(!panel.iter().any(|l| l.contains("walking: ")), "{panel:?}");
    pw.update_discovery(&state);
    assert_eq!(screen_of(&pw).text().len(), panel.len());
    pw.update_phase("cleaning", 1, 1, "/w/app");
    assert_eq!(screen_of(&pw).text(), vec!["$ offcut", "⠸ cleaning 1/1: /w/app"]);
}

#[test]
fn clearing_leaves_nothing_behind() {
    let state = DiscoveryProgress {
        current_path: "/w",
        dirs_scanned: 3,
        projects_found: 0,
        indexed_bytes: 0,
        recent_projects: &[],
    };
    for rounds in 0..3 {
        let mut pw = writer();
        for _ in 0..rounds {
            pw.update_discovery(&state);
        }
        pw.clear();
        let screen = screen_of(&pw);
        assert_eq!(screen.text(), vec!["$ offcut"]);
        assert_eq!((screen.y, screen.x), (1, 0));
        pw.finish();
        assert_eq!(screen_of(&pw).y, 2);
    }
}
