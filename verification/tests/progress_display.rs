//! The live progress display.

use offcut::output::Terminal;
use offcut::progress::{
    activity_bar, discovery_project_label, format_count, render_discovery_panel, render_line,
    terminal_width, DiscoveryProgress, DiscoveryProgressProject, ProgressWriter,
    DISCOVERY_PANEL_MIN_WIDTH,
};
use unicode_width::UnicodeWidthStr;

/// The progress writer is a no-op when not a TTY: update writes nothing,
/// finish writes nothing. Inject a non-TTY writer (a Vec<u8> buffer).
#[test]
fn no_op_when_not_tty() {
    // Construct a ProgressWriter with active = false (simulating non-TTY).
    let mut pw = ProgressWriter {
        writer: String::new(),
        width: 80,
        active: false,
        live_rows: 0,
        tick: 0,
    };
    pw.update("/some/deep/path");
    pw.finish();
    assert!(pw.writer.is_empty(), "non-TTY writer must emit nothing");
}

/// On a fake TTY writer (buffer with active = true), update emits
/// CR-prefixed single-line updates with no trailing newline, and
/// truncates long paths with a leading ellipsis.
#[test]
fn updates_on_fake_tty() {
    let mut pw = ProgressWriter {
        writer: String::new(),
        width: 40,
        active: true,
        live_rows: 0,
        tick: 0,
    };
    pw.update("/some/deep/path");
    let bytes = pw.writer.clone();
    // Starts with CR, no trailing newline.
    assert!(
        bytes.starts_with("\r"),
        "update must start with CR: {:?}",
        bytes
    );
    assert!(
        !bytes.ends_with('\n'),
        "update must not end with newline: {:?}",
        bytes
    );
    // Contains "walking: " label.
    assert!(
        bytes.contains("walking: "),
        "update must contain label: {:?}",
        bytes
    );
    // Short path fits; no ellipsis.
    assert!(
        !bytes.contains('\u{2026}'),
        "short path must not be ellipsized: {:?}",
        bytes
    );
}

/// Long paths are truncated with a leading ellipsis so they never wrap.
#[test]
fn truncates_long_paths_with_leading_ellipsis() {
    let mut pw = ProgressWriter {
        writer: String::new(),
        width: 20,
        active: true,
        live_rows: 0,
        tick: 0,
    };
    // Path longer than width minus label.
    pw.update("/very/deep/nested/project/structure/here");
    let bytes = pw.writer.clone();
    // Must contain the ellipsis.
    assert!(
        bytes.contains('\u{2026}'),
        "long path must be ellipsized: {:?}",
        bytes
    );
    // The leaf (last segment) stays visible on the right.
    assert!(
        bytes.contains("here"),
        "leaf must stay visible: {:?}",
        bytes
    );
    // No trailing newline.
    assert!(
        !bytes.ends_with('\n'),
        "update must not end with newline: {:?}",
        bytes
    );
}

/// Truncating a path with multibyte UTF-8 segments must not panic: the
/// slice start is snapped forward to the next char boundary.
#[test]
fn truncates_multibyte_paths_without_panicking() {
    let mut pw = ProgressWriter {
        writer: String::new(),
        width: 20,
        active: true,
        live_rows: 0,
        tick: 0,
    };
    // With width 20 the slice start lands mid-character in the CJK leaf,
    // so this panics unless the start is snapped to a char boundary.
    pw.update("/Users/séb/工程/项目文件夹");
    let bytes = pw.writer.clone();
    assert!(
        bytes.contains('\u{2026}'),
        "long multibyte path must be ellipsized: {:?}",
        bytes
    );
    assert!(
        bytes.contains("件夹"),
        "leaf tail must stay visible: {:?}",
        bytes
    );
}

/// Wide chars (CJK, emoji) occupy two display columns each; the rendered
/// line must be truncated and padded in columns, never exceeding the
/// terminal width, or it would wrap and scroll on every update.
#[test]
fn wide_char_line_fits_terminal_width_in_columns() {
    let mut pw = ProgressWriter {
        writer: String::new(),
        width: 30,
        active: true,
        live_rows: 0,
        tick: 0,
    };
    pw.update("/Users/dev/工程目录/项目文件夹的名称很长");
    let bytes = pw.writer.clone();
    let segment = bytes.rsplit('\r').next().unwrap();
    assert_eq!(
        segment.width(),
        30,
        "rendered line must be padded to exactly the terminal width in \
         display columns: {:?}",
        segment
    );
}

/// A terminal narrower than the label plus the ellipsis must not underflow
/// or panic; the fixed label itself is clipped to the available columns.
#[test]
fn tiny_width_does_not_panic() {
    let mut pw = ProgressWriter {
        writer: String::new(),
        width: 10,
        active: true,
        live_rows: 0,
        tick: 0,
    };
    pw.update("/some/deep/path");
    pw.finish();
    let bytes = pw.writer.clone();
    assert!(
        bytes.contains("walking:"),
        "width 10 can still carry the walking label: {:?}",
        bytes
    );
}

/// Even when COLUMNS is smaller than the spinner/label itself, the live
/// progress line must stay on one row. Paths and ellipses are appended
/// only after the clipped label leaves budget.
#[test]
fn progress_lines_fit_tiny_widths() {
    for width in 0..=12 {
        for line in [
            render_line("⠋ walking: ", "/some/deep/project", width),
            render_line("⠙ sizing 1/1: ", "/some/deep/project", width),
        ] {
            assert!(
                line.width() <= width,
                "width {width}: rendered {} columns: {line:?}",
                line.width()
            );
            if width < "⠋ walking: ".width() {
                assert!(
                    !line.contains('/'),
                    "path must not be appended until the label leaves budget: {line:?}"
                );
            }
        }
    }
}

/// clear erases the line in place without emitting a newline, so the
/// next write starts at column 0 of the erased line.
#[test]
fn clear_erases_line_without_newline() {
    let mut pw = ProgressWriter {
        writer: String::new(),
        width: 20,
        active: true,
        live_rows: 0,
        tick: 0,
    };
    pw.update("/some/path");
    pw.clear();
    let bytes = pw.writer.clone();
    assert!(
        !bytes.contains('\n'),
        "clear must not emit a newline: {:?}",
        bytes
    );
    assert!(
        bytes.ends_with('\r'),
        "clear must leave the cursor at column 0: {:?}",
        bytes
    );
    let last = bytes.split('\r').rev().nth(1).unwrap_or("");
    assert!(
        last.trim().is_empty(),
        "cleared segment must be spaces only: {:?}",
        last
    );
}

/// clear is a no-op when not a TTY.
#[test]
fn clear_no_op_when_not_tty() {
    let mut pw = ProgressWriter {
        writer: String::new(),
        width: 20,
        active: false,
        live_rows: 0,
        tick: 0,
    };
    pw.clear();
    assert!(pw.writer.is_empty(), "non-TTY clear must emit nothing");
}

/// finish clears the line and emits a newline.
#[test]
fn finish_clears_line_and_emits_newline() {
    let mut pw = ProgressWriter {
        writer: String::new(),
        width: 20,
        active: true,
        live_rows: 0,
        tick: 0,
    };
    pw.update("/some/path");
    pw.finish();
    let bytes = pw.writer.clone();
    // Must end with a newline.
    assert!(
        bytes.ends_with('\n'),
        "finish must emit a newline: {:?}",
        bytes
    );
    // The cleared line contains CRs and spaces before the final newline.
    assert!(bytes.contains("\r"), "finish must contain CR: {:?}", bytes);
}

/// Each update overwrites the previous line: a shorter path after a longer
/// one produces a buffer where each CR-delimited segment contains only
/// its own content -- no leftover trailing characters from the prior line
/// appear within a segment.
#[test]
fn shorter_path_overwrites_longer_previous() {
    let mut pw = ProgressWriter {
        writer: String::new(),
        width: 40,
        active: true,
        live_rows: 0,
        tick: 0,
    };
    // First update: long path (within width).
    pw.update("/a/very/deep/nested/project/structure");
    // Second update: shorter path.
    pw.update("/short");
    let second = pw.writer.clone();
    // Each segment between CR characters contains only its own content.
    // The second segment does not carry trailing chars from the first.
    assert!(
        second.contains("walking: /short"),
        "second update must show the new path: {:?}",
        second
    );
    // Split on CR and check each segment.
    let segments: Vec<&str> = second.split('\r').collect();
    // Last segment is the final newline (empty or just newline).
    let last = segments.last().copied().unwrap_or("");
    assert!(
        !last.contains("structure"),
        "final segment must not carry trailing chars: {:?}",
        last
    );
}

/// update_phase emits <phase> <idx>/<total>: <path> with CR prefix, no
/// trailing newline, and the same truncation/padding as update.
#[test]
fn update_phase_emits_phase_label_and_counter() {
    let mut pw = ProgressWriter {
        writer: String::new(),
        width: 40,
        active: true,
        live_rows: 0,
        tick: 0,
    };
    pw.update_phase("classifying", 3, 47, "/my/project");
    let bytes = pw.writer.clone();
    // Starts with CR, no trailing newline.
    assert!(bytes.starts_with("\r"), "update_phase must start with CR");
    assert!(
        !bytes.ends_with('\n'),
        "update_phase must not end with newline"
    );
    // Contains the phase label, counter, and path.
    assert!(
        bytes.contains("classifying 3/47: /my/project"),
        "update_phase must contain phase/counter/path: {:?}",
        bytes
    );
}

/// update_phase is a no-op when not a TTY.
#[test]
fn update_phase_no_op_when_not_tty() {
    let mut pw = ProgressWriter {
        writer: String::new(),
        width: 80,
        active: false,
        live_rows: 0,
        tick: 0,
    };
    pw.update_phase("cleaning", 1, 5, "/a/b/c");
    pw.finish();
    assert!(
        pw.writer.is_empty(),
        "non-TTY update_phase must emit nothing: {:?}",
        pw.writer
    );
}

/// update_phase truncates long paths with a leading ellipsis, just like
/// update. The leaf (last segment) stays visible on the right.
#[test]
fn update_phase_truncates_long_paths() {
    let mut pw = ProgressWriter {
        writer: String::new(),
        width: 35,
        active: true,
        live_rows: 0,
        tick: 0,
    };
    // Path longer than width minus the phase/counter label.
    pw.update_phase(
        "classifying",
        1,
        100,
        "/very/deep/nested/project/structure/here",
    );
    let bytes = pw.writer.clone();
    assert!(bytes.contains('\u{2026}'), "long path must be ellipsized");
    assert!(bytes.contains("here"), "leaf must stay visible");
    assert!(
        !bytes.ends_with('\n'),
        "update_phase must not end with newline"
    );
}

/// update_phase with multibyte UTF-8 path must not panic: the slice start
/// is snapped forward to the next char boundary.
#[test]
fn update_phase_truncates_multibyte_paths() {
    let mut pw = ProgressWriter {
        writer: String::new(),
        width: 25,
        active: true,
        live_rows: 0,
        tick: 0,
    };
    pw.update_phase("cleaning", 1, 3, "/Users/séb/工程/项目文件夹");
    let bytes = pw.writer.clone();
    assert!(
        bytes.contains('\u{2026}'),
        "long multibyte path must be ellipsized"
    );
    assert!(bytes.contains("件夹"), "leaf tail must stay visible");
}

/// Each update_phase call overwrites the previous one: a shorter path
/// after a longer one produces a buffer where each CR-delimited segment
/// contains only its own content.
#[test]
fn update_phase_overwrites_previous() {
    let mut pw = ProgressWriter {
        writer: String::new(),
        width: 40,
        active: true,
        live_rows: 0,
        tick: 0,
    };
    pw.update_phase(
        "classifying",
        1,
        5,
        "/a/very/deep/nested/project/structure",
    );
    pw.update_phase("classifying", 2, 5, "/short");
    let second = pw.writer.clone();
    assert!(
        second.contains("classifying 2/5: /short"),
        "second update_phase must show the new path: {:?}",
        second
    );
    let segments: Vec<&str> = second.split('\r').collect();
    let last = segments.last().copied().unwrap_or("");
    assert!(
        !last.contains("structure"),
        "final segment must not carry trailing chars: {:?}",
        last
    );
}

/// update_phase renders the phase label exactly as supplied -- callers
/// can use "classifying", "cleaning", or any other label.
#[test]
fn update_phase_renders_supplied_label() {
    let mut pw = ProgressWriter {
        writer: String::new(),
        width: 40,
        active: true,
        live_rows: 0,
        tick: 0,
    };
    pw.update_phase("cleaning", 1, 3, "/project");
    let bytes = pw.writer.clone();
    assert!(
        bytes.contains("cleaning 1/3: /project"),
        "must render the supplied label: {:?}",
        bytes
    );
}

#[test]
fn discovery_panel_shows_scanning_counts_indexed_bytes_and_recent_projects() {
    let mut pw = ProgressWriter {
        writer: String::new(),
        width: 96,
        active: true,
        live_rows: 0,
        tick: 0,
    };
    let recent = [
        DiscoveryProgressProject {
            path: "/workspace/dashboard",
            marker: ".git",
        },
        DiscoveryProgressProject {
            path: "/workspace/api-gateway",
            marker: "go.mod",
        },
    ];

    pw.update_discovery(&DiscoveryProgress {
        current_path: "/workspace/api-gateway/dist",
        dirs_scanned: 1284,
        projects_found: 7,
        indexed_bytes: 2_900_000_000,
        recent_projects: &recent,
    });

    let bytes = pw.writer.clone();
    assert!(bytes.starts_with('\r'), "panel starts live: {bytes:?}");
    assert!(!bytes.ends_with('\n'), "panel stays live: {bytes:?}");
    assert!(bytes.contains("scanning"), "{bytes}");
    assert!(bytes.contains("walking"), "{bytes}");
    assert!(bytes.contains("/workspace/api-gateway/dist"), "{bytes}");
    assert!(bytes.contains("1,284 dirs scanned"), "{bytes}");
    assert!(bytes.contains("7 projects found"), "{bytes}");
    assert!(bytes.contains("2.7 GB indexed"), "{bytes}");
    assert!(bytes.contains("Discovered so far"), "{bytes}");
    assert!(bytes.contains("dashboard"), "{bytes}");
    assert!(bytes.contains(".git"), "{bytes}");
    assert!(bytes.contains("api-gateway"), "{bytes}");
    assert!(bytes.contains("go.mod"), "{bytes}");
    assert!(bytes.contains("ctrl-c"), "{bytes}");
}

#[test]
fn discovery_panel_lines_fit_every_terminal_width() {
    let recent = [
        DiscoveryProgressProject {
            path: "/workspace/really/deep/dashboard",
            marker: ".git",
        },
        DiscoveryProgressProject {
            path: "/workspace/really/deep/api-gateway",
            marker: "package.json",
        },
    ];

    for width in 0..=96 {
        for line in render_discovery_panel(
            &DiscoveryProgress {
                current_path: "/workspace/really/deep/api-gateway/node_modules/cache",
                dirs_scanned: 1284,
                projects_found: 7,
                indexed_bytes: 2_900_000_000,
                recent_projects: &recent,
            },
            "⠋",
            width,
        ) {
            assert!(
                line.width() <= width,
                "width {width}: rendered {} columns: {line:?}",
                line.width()
            );
        }
    }
}

#[test]
fn discovery_panel_bounds_recent_projects() {
    let recent = [
        DiscoveryProgressProject {
            path: "/workspace/p1",
            marker: ".git",
        },
        DiscoveryProgressProject {
            path: "/workspace/p2",
            marker: ".git",
        },
        DiscoveryProgressProject {
            path: "/workspace/p3",
            marker: ".git",
        },
        DiscoveryProgressProject {
            path: "/workspace/p4",
            marker: ".git",
        },
        DiscoveryProgressProject {
            path: "/workspace/p5",
            marker: ".git",
        },
        DiscoveryProgressProject {
            path: "/workspace/p6",
            marker: ".git",
        },
        DiscoveryProgressProject {
            path: "/workspace/p7",
            marker: ".git",
        },
    ];

    let rendered = render_discovery_panel(
        &DiscoveryProgress {
            current_path: "/workspace/p7",
            dirs_scanned: 70,
            projects_found: 7,
            indexed_bytes: 700,
            recent_projects: &recent,
        },
        "⠋",
        80,
    )
    .join("\n");

    assert!(!rendered.contains("p1"), "{rendered}");
    for project in ["p2", "p3", "p4", "p5", "p6", "p7"] {
        assert!(rendered.contains(project), "{rendered}");
    }
}

#[test]
fn a_writer_is_active_on_a_capable_terminal_only() {
    let mut t = Terminal {
        json_mode: false,
        stdout_is_tty: true,
        stderr_is_tty: false,
        term: None,
        no_color: false,
        clicolor: None,
    };
    assert!(ProgressWriter::new(&t, 80).active);
    t.term = Some("dumb".to_string());
    assert!(!ProgressWriter::new(&t, 80).active);
    t.term = None;
    t.json_mode = true;
    assert!(!ProgressWriter::new(&t, 80).active);
}

#[test]
fn a_panel_is_rubbed_out_row_by_row() {
    let mut pw = ProgressWriter {
        writer: String::new(),
        width: 40,
        active: true,
        tick: 0,
        live_rows: 3,
    };
    pw.clear();
    assert_eq!(pw.writer, "\r\x1b[2K\x1b[1A\r\x1b[2K\x1b[1A\r\x1b[2K");
    assert_eq!(pw.live_rows, 0);
}

#[test]
fn a_narrow_terminal_gets_one_line() {
    let state = DiscoveryProgress {
        current_path: "/p",
        dirs_scanned: 1,
        projects_found: 0,
        indexed_bytes: 0,
        recent_projects: &[],
    };
    let mut pw = ProgressWriter {
        writer: String::new(),
        width: DISCOVERY_PANEL_MIN_WIDTH - 1,
        active: true,
        tick: usize::MAX,
        live_rows: 0,
    };
    pw.update_discovery(&state);
    assert_eq!(pw.live_rows, 1);
    assert_eq!(pw.tick, 0, "the count of ticks starts over");
    assert!(pw.writer.starts_with("\r⠴ walking: /p"), "{:?}", pw.writer);
    pw.width = DISCOVERY_PANEL_MIN_WIDTH;
    pw.update_discovery(&state);
    assert_eq!(pw.live_rows, 5);
}

#[test]
fn counts_are_grouped() {
    assert_eq!(format_count(0), "0");
    assert_eq!(format_count(999), "999");
    assert_eq!(format_count(1000), "1,000");
    assert_eq!(format_count(1234567), "1,234,567");
}

#[test]
fn the_activity_bar_moves_with_the_spinner() {
    // The code point of the frame picks the stage.
    assert_eq!(activity_bar(80, "⠋"), format!("[{}{}]", "====>", " ".repeat(19)));
    assert_eq!(activity_bar(80, ""), format!("[{}{}]", "=>", " ".repeat(22)));
    assert_eq!(activity_bar(12, "⠋"), "");
    assert_eq!(activity_bar(15, "⠋"), "[==]");
}

#[test]
fn labels_name_the_project() {
    assert_eq!(discovery_project_label("/workspace/p1"), "p1");
    assert_eq!(discovery_project_label("/"), "/");
}

#[test]
fn the_width_comes_from_the_terminal_first() {
    assert_eq!(terminal_width(Some(120), Some("40")), 120);
    assert_eq!(terminal_width(None, Some("40")), 40);
    assert_eq!(terminal_width(None, Some("+40")), 40);
    for bad in ["", "+", "forty", "-1", "4 0", "99999999999999999999999"] {
        assert_eq!(terminal_width(None, Some(bad)), 80, "{bad:?}");
    }
    assert_eq!(terminal_width(None, None), 80);
}
