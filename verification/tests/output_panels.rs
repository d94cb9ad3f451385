//! Rows, tables and panels.

use offcut::classify::Status;
use offcut::clean::{Classification, CleanItem};
use offcut::layout::{cell, pack_columns};
use offcut::output::{
    blocks_cleaning, clean_review_rows, color_enabled_for, color_enabled_with,
    format_blocked_project, format_clean_review, format_clean_success, format_nothing_to_reclaim,
    format_path_line, format_project_row, format_project_table, format_summary, project_table_in,
    stderr_color_enabled, stderr_terminal_ui_enabled, stdout_color_enabled,
    stdout_terminal_ui_enabled, terminal_ui_enabled, terminal_ui_enabled_with, wrap_line,
    ProjectTableRow, Terminal, REVIEW_COLUMNAR_MIN_W,
};
use owo_colors::{OwoColorize, Style as OwoStyle};
use unicode_width::UnicodeWidthStr;

/// A terminal that can show everything.
fn terminal() -> Terminal {
    Terminal {
        json_mode: false,
        stdout_is_tty: true,
        stderr_is_tty: true,
        term: Some("xterm-256color".to_string()),
        no_color: false,
        clicolor: None,
    }
}

/// The widths every panel sweep runs. It reaches below the widest fixed
/// prefix a panel prints (`"status   "`, 9 columns) because a prefix
/// emitted at full length regardless of the terminal would break the
/// width invariant — `COLUMNS=6` reaches it.
const EXTREME_WIDTHS: [usize; 13] = [1, 2, 3, 4, 5, 6, 7, 8, 9, 10, 20, 40, 80];

/// Without a say on color, the terminal and the user's wishes decide.
#[test]
fn rows_are_colored_as_the_terminal_allows() {
    let row = |t: &Terminal| format_project_row("/p", Status::NoGit, None, None, t);
    let summary = |t: &Terminal| format_summary(5, None, None, None, t);
    let mut t = terminal();
    assert_eq!(row(&t), format_project_row("/p", Status::NoGit, Some(true), None, &t));
    assert_eq!(summary(&t), format_summary(5, Some(true), None, None, &t));
    t.no_color = true;
    assert_eq!(row(&t), format_project_row("/p", Status::NoGit, Some(false), None, &t));
    assert_eq!(summary(&t), "listing: 5 project(s), sorted by status");
    t.no_color = false;
    t.stdout_is_tty = false;
    assert!(!row(&t).contains('\u{1b}'));
    assert!(!summary(&t).contains('\u{1b}'));
}

/// Each formatted row contains the project path and status label.
#[test]
fn project_row_contains_every_field() {
    let row = format_project_row("/tmp/project", Status::Cleanable, Some(false), None, &terminal());
    assert!(row.contains("/tmp/project"), "row: {row}");
    assert!(row.contains("cleanable"), "row: {row}");
}

/// The status word appears exactly once per row: the cleanable and clean
/// reasons merely repeat the label, so they are suppressed — the color
/// (bold cyan) is the cleanable indicator, not a repeated word.
#[test]
fn label_repeating_reason_is_suppressed() {
    let cleanable = format_project_row("/tmp/project", Status::Cleanable, Some(false), None, &terminal());
    assert_eq!(
        cleanable.matches("cleanable").count(),
        1,
        "row: {cleanable}"
    );
    assert!(!cleanable.contains("(cleanable)"), "row: {cleanable}");

    let clean =
        format_project_row("/tmp/project", Status::Clean, Some(false), None, &terminal());
    assert_eq!(clean.matches("clean").count(), 1, "row: {clean}");
    assert!(!clean.contains("(clean)"), "row: {clean}");
}

/// Non-cleanable rows are formatted with their reason.
#[test]
fn non_cleanable_row_has_reason() {
    let row = format_project_row("/tmp/project", Status::NoGit, Some(false), None, &terminal());
    assert!(row.contains("not git-initialized"), "row: {row}");
    assert!(!row.contains("(cleanable)"), "row: {row}");
}

/// Plain output when `emit_colors = Some(false)` — no ANSI escape codes.
#[test]
fn plain_output_when_not_tty() {
    let row = format_project_row("/tmp/project", Status::Cleanable, Some(false), None, &terminal());
    assert!(
        !row.contains("\x1b["),
        "plain output should contain no escape codes: {row:?}"
    );
    // Verify the content still shows as plain text.
    assert!(
        row.contains("/tmp/project"),
        "plain output still contains the path"
    );
}

/// Color output when `emit_colors = Some(true)` — ANSI escape codes present.
#[test]
fn colored_output_when_tty() {
    let row = format_project_row("/tmp/project", Status::Cleanable, Some(true), None, &terminal());
    assert!(
        row.contains("\x1b["),
        "colored output should contain escape codes: {row:?}"
    );
}

/// Each dirty status gets a warm color (red or yellow) — the label
/// fragment contains an escape sequence that colors it.
#[test]
fn dirty_statuses_get_warm_colors() {
    let no_git =
        format_project_row("/tmp/project", Status::NoGit, Some(true), None, &terminal());
    assert!(no_git.contains("\x1b["), "no-git is red: {no_git:?}");

    let no_remote = format_project_row("/tmp/project", Status::NoRemote, Some(true), None, &terminal());
    assert!(
        no_remote.contains("\x1b["),
        "no-remote is yellow: {no_remote:?}"
    );
}

/// Each clean status gets a cool color: bold cyan marks the ready-to-clean
/// row, plain green the already-settled one.
///
/// The expected sequences are spelled out here rather than derived from
/// `status_style`, and are matched exactly rather than as "some escape" —
/// an any-escape assertion passes for every color, which is how the
/// documented palette drifted away from the emitted one unnoticed.
#[test]
fn clean_statuses_get_cool_colors() {
    let cleanable = format_project_row("/tmp/project", Status::Cleanable, Some(true), None, &terminal());
    let expect_cleanable = format!("{}", "cleanable".style(OwoStyle::new().cyan().bold()));
    assert!(
        cleanable.contains(&expect_cleanable),
        "cleanable is cyan+bold: {cleanable:?}"
    );

    let clean = format_project_row("/tmp/project", Status::Clean, Some(true), None, &terminal());
    let expect_clean = format!("{}", "clean".style(OwoStyle::new().green()));
    assert!(clean.contains(&expect_clean), "clean is green: {clean:?}");
}

/// Summary header is bold (colored) when TTY, plain otherwise.
#[test]
fn summary_bold_when_tty_plain_when_not() {
    let colored = format_summary(5, Some(true), None, None, &terminal());
    assert!(colored.contains("\x1b["), "summary: {colored:?}");
    let plain = format_summary(5, Some(false), None, None, &terminal());
    assert!(!plain.contains("\x1b["), "plain summary: {plain:?}");
}

/// Each formatted row has the project path (relative to root) printed.
#[test]
fn project_row_uses_absolute_path_when_absolute() {
    // The row uses `path.display()`, which prints the
    // full path. So even an absolute path is printed in full.
    let row = format_project_row("/tmp/zz/project", Status::Cleanable, Some(false), None, &terminal());
    assert!(row.contains("/tmp/zz/project"), "row uses full path: {row}");
}

/// Each formatted row uses `display()` — the path is shown as the user
/// would see it. A relative path is printed as-is.
#[test]
fn project_row_prints_as_displayed() {
    let row = format_project_row("my/project", Status::Cleanable, Some(false), None, &terminal());
    assert!(
        row.contains("my/project"),
        "row prints the path as given: {row}"
    );
}

/// Each cleanable row carries its size when a non-empty string is supplied.
#[test]
fn cleanable_row_carries_size_when_supplied() {
    let row = format_project_row("/tmp/project", Status::Cleanable, Some(false), Some("2.3 GB"), &terminal());
    assert!(
        row.contains("~2.3 GB"),
        "cleanable row must carry the savings: {row}"
    );
}

/// Each non-cleanable row shows no size — dirty statuses (1–4) are not
/// cleanable, so no reclaimable display accompanies them.
#[test]
fn non_cleanable_row_showes_no_size() {
    let row = format_project_row("/tmp/project", Status::Wip, Some(false), Some("10 GB"), &terminal());
    assert!(
        !row.contains("~10 GB"),
        "wip row must not carry savings: {row}"
    );
}

/// Each clean row shows no size — nothing is deletable in a clean repo.
#[test]
fn clean_row_showes_no_size() {
    let row = format_project_row("/tmp/project", Status::Clean, Some(false), Some("10 GB"), &terminal());
    assert!(
        !row.contains("~10 GB"),
        "clean row must not carry savings: {row}"
    );
}

/// Each summary carries the cleanable count when supplied.
#[test]
fn summary_carries_cleanable_count_when_supplied() {
    let s = format_summary(5, Some(false), Some(3), None, &terminal());
    assert!(
        s.contains("3 cleanable"),
        "summary must carry the cleanable count: {s}"
    );
}

/// Each summary carries the aggregate reclaimable when both counts
/// and a size string are supplied.
#[test]
fn summary_carries_aggregate_when_both_supplied() {
    let s = format_summary(5, Some(false), Some(3), Some("12 GB"), &terminal());
    assert!(
        s.contains("3 cleanable"),
        "summary must carry cleanable count: {s}"
    );
    assert!(
        s.contains("~12 GB reclaimable"),
        "summary must carry the aggregate: {s}"
    );
}

/// Each summary falls back to the legacy form when neither cleanable
/// nor size is supplied.
#[test]
fn summary_falls_back_to_legacy_when_neither_supplied() {
    let s = format_summary(5, Some(false), None, None, &terminal());
    assert!(
        s.contains("sorted by status"),
        "summary must fall back to legacy: {s}"
    );
}

#[test]
fn rich_project_table_has_reference_columns() {
    let rows = vec![
        ProjectTableRow {
            path: "/workspace/dashboard",
            status: Status::Cleanable,
            size: Some("1.2 GB"),
            branch: Some("main"),
            changed: Some("2h ago"),
        },
        ProjectTableRow {
            path: "/workspace/design-system",
            status: Status::Wip,
            size: Some("540 MB"),
            branch: Some("feat/tokens"),
            changed: Some("12m ago"),
        },
    ];
    let rendered = format_project_table(&rows, 1, Some("1.2 GB"), 100, false).join("\n");
    assert!(rendered.contains("PROJECT"));
    assert!(rendered.contains("STATUS"));
    assert!(rendered.contains("RECLAIM"));
    assert!(rendered.contains("BRANCH"));
    assert!(rendered.contains("CHANGED"));
    assert!(rendered.contains("dashboard"));
    assert!(rendered.contains("cleanable"));
    assert!(rendered.contains("~1.2 GB reclaimable across 1 cleanable"));
}

#[test]
fn narrow_project_table_degrades_to_stacked_rows() {
    let rows = vec![ProjectTableRow {
        path: "/workspace/dashboard",
        status: Status::Cleanable,
        size: Some("1.2 GB"),
        branch: Some("main"),
        changed: Some("2h ago"),
    }];
    let rendered = format_project_table(&rows, 1, Some("1.2 GB"), 50, false).join("\n");
    assert!(!rendered.contains("PROJECT"));
    assert!(rendered.contains("dashboard"));
    assert!(rendered.contains("reclaim 1.2 GB"));
    assert!(!rendered.contains("\x1b["));
}

/// The review panel states each item's fate but asks nothing: the single
/// confirmation the user answers is the real prompt on stderr. A question
/// rendered here would be a second copy nobody reads an answer for.
#[test]
fn clean_review_lists_fates_and_asks_nothing() {
    let items = vec![
        CleanItem {
            rel_path: "node_modules".to_string(),
            is_dir: true,
            classification: Classification::Safe,
        },
        CleanItem {
            rel_path: "scratch.tmp".to_string(),
            is_dir: false,
            classification: Classification::Surfaced,
        },
    ];
    let rows = clean_review_rows(&items, |item| match item.classification {
        Classification::Protected => "kept",
        Classification::Safe => "will delete",
        Classification::Surfaced => "needs approval",
    });
    let rendered = format_clean_review(
        "/workspace/dashboard",
        "main · clean tree · remote ✓ pushed",
        &rows,
        Some("1.2 GB"),
        90,
        false,
    )
    .join("\n");
    assert!(rendered.contains("GITIGNORED REVIEW"));
    assert!(rendered.contains("node_modules/"));
    assert!(rendered.contains("safe-to-delete"));
    assert!(rendered.contains("will delete"));
    assert!(rendered.contains("needs approval"));
    assert!(rendered.contains("total · 2 item(s) · ~1.2 GB"));
    assert!(
        !rendered.contains('?'),
        "the panel must not embed a prompt: {rendered}"
    );
    assert!(!rendered.contains("[y/N]"), "review: {rendered}");
}

/// The same panel renders the post-approval fates, so a `--force` run
/// never labels an item `needs approval` while deleting it.
#[test]
fn clean_review_carries_post_approval_fates() {
    let items = vec![CleanItem {
        rel_path: "scratch.tmp".to_string(),
        is_dir: false,
        classification: Classification::Surfaced,
    }];
    let rows = clean_review_rows(&items, |_| "deleting");
    let rendered =
        format_clean_review("/w/dash", "main", &rows, None, 90, false).join("\n");
    assert!(rendered.contains("deleting"), "review: {rendered}");
    assert!(!rendered.contains("needs approval"), "review: {rendered}");
}

/// The review header carries both the project name and its full path, and
/// still stays inside the width, for a long path on a narrow terminal.
#[test]
fn clean_review_header_fits_the_terminal_width() {
    let items = vec![CleanItem {
        rel_path: "node_modules".to_string(),
        is_dir: true,
        classification: Classification::Safe,
    }];
    let rows = clean_review_rows(&items, |_| "will delete");
    let path = "/var/folders/s0/zl64g7m92b7bf0d72vc0cskw0000gn/T/offcut-demo/projects/payments-api";
    for width in [10, 20, 40, 56, 60, 80, 120] {
        for emit_colors in [false, true] {
            let header = strip_ansi(
                &format_clean_review(
                    path,
                    "main · clean tree · remote ✓ pushed",
                    &rows,
                    Some("2.34 MB"),
                    width,
                    emit_colors,
                )[0],
            );
            assert!(
                header.width() <= width,
                "width {width} (colors {emit_colors}): header of {} columns: {header:?}",
                header.width()
            );
        }
    }
}

/// The header is not the only line that can overrun: the branch state, the
/// item rows, and the total each carry caller-supplied text. Below the
/// width the three-column row needs, the rows stack rather than wrap.
#[test]
fn every_clean_review_line_fits_the_terminal_width() {
    let items = vec![
        CleanItem {
            rel_path: "node_modules".to_string(),
            is_dir: true,
            classification: Classification::Safe,
        },
        CleanItem {
            rel_path: "packages/design-system/.turbo/cache/build-output".to_string(),
            is_dir: true,
            classification: Classification::Surfaced,
        },
    ];
    let rows = clean_review_rows(&items, |_| "needs approval");
    let path = "/var/folders/s0/zl64g7m92b7bf0d72vc0cskw0000gn/T/offcut-demo/projects/payments-api";
    for width in EXTREME_WIDTHS.iter().copied().chain([45, 46, 56, 120]) {
        for emit_colors in [false, true] {
            for line in format_clean_review(
                path,
                "feature/some-long-branch-name · clean tree · remote ✓ pushed",
                &rows,
                Some("2.34 MB"),
                width,
                emit_colors,
            ) {
                let visible = strip_ansi(&line);
                assert!(
                    visible.width() <= width,
                    "width {width} (colors {emit_colors}): line of {} columns: {visible:?}",
                    visible.width()
                );
            }
        }
    }
}

/// Below the columnar minimum, each item's classification and fate move to
/// their own line under the path instead of being squeezed into columns
/// that no longer fit — the same degradation the workspace table makes.
#[test]
fn clean_review_stacks_item_rows_on_a_narrow_terminal() {
    let items = vec![CleanItem {
        rel_path: "node_modules".to_string(),
        is_dir: true,
        classification: Classification::Safe,
    }];
    let rows = clean_review_rows(&items, |_| "will delete");
    let narrow = format_clean_review("/w/dash", "main", &rows, None, 40, false);
    let item_line = narrow
        .iter()
        .find(|line| line.contains("node_modules"))
        .expect("item row rendered");
    assert!(
        !item_line.contains("safe-to-delete"),
        "narrow rows stack: {narrow:?}"
    );
    let detail = narrow
        .iter()
        .find(|line| line.contains("safe-to-delete"))
        .expect("classification rendered");
    assert!(detail.contains("will delete"), "detail: {detail:?}");

    // Above the minimum the three-column row is back.
    assert!(REVIEW_COLUMNAR_MIN_W > 40);
    let wide = format_clean_review("/w/dash", "main", &rows, None, 60, false);
    assert!(
        wide.iter()
            .any(|line| line.contains("node_modules") && line.contains("safe-to-delete")),
        "columnar rows: {wide:?}"
    );
}

/// Truncating the header must not cost it the project's name — that is
/// what tells the user which project the panel is about.
#[test]
fn clean_review_header_keeps_the_project_name() {
    let rows = Vec::new();
    let path = "/a/very/long/workspace/path/that/eats/the/line/payments-api";
    let header = strip_ansi(&format_clean_review(path, "main", &rows, None, 56, false)[0]);
    assert!(
        header.starts_with("⟩ analyzing payments-api · "),
        "header: {header:?}"
    );
    assert!(header.ends_with("/payments-api"), "header: {header:?}");
}

/// Item columns are aligned by display width, not by char count: a path
/// of wide (CJK) characters must not push the label column right.
#[test]
fn clean_review_item_columns_align_by_display_width() {
    let items = vec![
        CleanItem {
            rel_path: "node_modules".to_string(),
            is_dir: true,
            classification: Classification::Safe,
        },
        CleanItem {
            rel_path: "工程目录".to_string(),
            is_dir: true,
            classification: Classification::Safe,
        },
    ];
    let rows = clean_review_rows(&items, |_| "will delete");
    let rendered = format_clean_review("/w/dash", "main", &rows, None, 90, false);
    let label_columns: Vec<usize> = rendered
        .iter()
        .filter(|line| line.contains("safe-to-delete"))
        .map(|line| {
            let idx = line.find("safe-to-delete").unwrap();
            line[..idx].width()
        })
        .collect();
    assert_eq!(label_columns.len(), 2, "rendered: {rendered:?}");
    assert_eq!(
        label_columns[0], label_columns[1],
        "wide-character paths must not shift the label column: {rendered:?}"
    );
}

/// Every wide-table column starts at the header's column, for every
/// status. Colored labels carry ANSI escapes whose bytes must not be
/// counted as padding, or the table is ragged whenever color is on, which
/// is the default on a TTY.
#[test]
fn table_columns_line_up_under_color_and_plain() {
    let rows = vec![
        ProjectTableRow {
            path: "/workspace/dashboard",
            status: Status::Cleanable,
            size: Some("1.2 GB"),
            branch: Some("main"),
            changed: Some("2h ago"),
        },
        ProjectTableRow {
            path: "/workspace/design-system",
            status: Status::Wip,
            size: Some("540 MB"),
            branch: Some("feat/tokens"),
            changed: Some("12m ago"),
        },
        ProjectTableRow {
            path: "/workspace/scratch",
            status: Status::NoGit,
            size: None,
            branch: None,
            changed: None,
        },
    ];
    let plain = format_project_table(&rows, 1, Some("1.2 GB"), 100, false);
    let colored = format_project_table(&rows, 1, Some("1.2 GB"), 100, true);
    assert!(
        colored.join("\n").contains("\x1b["),
        "colored table should carry escapes"
    );
    let stripped: Vec<String> = colored.iter().map(|l| strip_ansi(l)).collect();
    assert_eq!(
        stripped, plain,
        "color must not change the visible layout by a single column"
    );

    let status_col = plain[0].find("STATUS").unwrap();
    for (i, row) in rows.iter().enumerate() {
        let line = &plain[i + 1];
        assert!(
            line[status_col..].starts_with(row.status.label()),
            "row {i} status column misaligned: {line:?}"
        );
    }
}

/// No rendered line overruns the terminal, at any width the table is
/// asked for. The legend and the next-step hint are the long unmeasured
/// shapes: unpacked, the legend alone is ~139 columns and soft-wraps
/// mid-entry on every ordinary 80–100 column terminal.
#[test]
fn every_table_line_fits_the_terminal_width() {
    let rows = vec![
        ProjectTableRow {
            path: "/workspace/dashboard",
            status: Status::Cleanable,
            size: Some("1.2 GB"),
            branch: Some("main"),
            changed: Some("2h ago"),
        },
        ProjectTableRow {
            path: "/workspace/design-system",
            status: Status::Wip,
            size: Some("540 MB"),
            branch: Some("feat/tokens"),
            changed: Some("12m ago"),
        },
    ];
    for width in [40, 50, 80, 84, 100, 142] {
        for emit_colors in [false, true] {
            for line in format_project_table(&rows, 1, Some("1.2 GB"), width, emit_colors) {
                let visible = strip_ansi(&line);
                assert!(
                    visible.width() <= width,
                    "width {width} (colors {emit_colors}): line of {} columns: {visible:?}",
                    visible.width()
                );
            }
        }
    }
}

/// Every project row fits at *any* width, down to a single column. The
/// stacked rows carry fixed prefixes (the status dot, the detail indent),
/// and a prefix emitted at full length is what overruns a terminal
/// narrower than the prefix itself.
///
/// Only the rows are swept: the footer, hint, and legend below the blank
/// separator are packed by `pack_columns`, which deliberately gives an
/// over-wide entry its own line rather than dropping it.
#[test]
fn every_table_row_fits_even_the_narrowest_terminal() {
    let rows = vec![
        ProjectTableRow {
            path: "/workspace/dashboard",
            status: Status::Cleanable,
            size: Some("1.2 GB"),
            branch: Some("main"),
            changed: Some("2h ago"),
        },
        ProjectTableRow {
            path: "/workspace/design-system",
            status: Status::Wip,
            size: None,
            branch: None,
            changed: None,
        },
    ];
    for width in EXTREME_WIDTHS {
        for emit_colors in [false, true] {
            let rendered = format_project_table(&rows, 1, Some("1.2 GB"), width, emit_colors);
            let body = rendered
                .iter()
                .position(|line| line.is_empty())
                .unwrap_or(rendered.len());
            assert!(body > 0, "width {width}: table rendered no rows");
            for line in &rendered[..body] {
                let visible = strip_ansi(line);
                assert!(
                    visible.width() <= width,
                    "width {width} (colors {emit_colors}): row of {} columns: {visible:?}",
                    visible.width()
                );
            }
        }
    }
}

/// The legend keeps every entry intact while packing to the width — an
/// entry is never split across two lines.
#[test]
fn legend_packs_whole_entries_across_lines() {
    let rows = vec![ProjectTableRow {
        path: "/workspace/dashboard",
        status: Status::Cleanable,
        size: Some("1.2 GB"),
        branch: Some("main"),
        changed: Some("2h ago"),
    }];
    let rendered = format_project_table(&rows, 1, Some("1.2 GB"), 80, false).join("\n");
    for entry in [
        "cleanable - safe to remove",
        "clean - nothing to trim",
        "wip - uncommitted work",
        "no-remote/unpushed - not pushed",
        "no-git - not a repo",
    ] {
        assert!(
            rendered.contains(entry),
            "legend lost {entry:?}: {rendered}"
        );
    }
    // Wide enough for one line, narrow enough to need more than one.
    let one_line = format_project_table(&rows, 1, Some("1.2 GB"), 200, false);
    let packed = format_project_table(&rows, 1, Some("1.2 GB"), 80, false);
    assert!(
        packed.len() > one_line.len(),
        "a narrower terminal must use more lines, not a wrapped one"
    );
}

/// An entry wider than the whole terminal still gets a line of its own
/// rather than being dropped.
#[test]
fn pack_columns_keeps_oversized_entries() {
    let entries = [cell("a"), cell("an-extremely-long-single-entry"), cell("b")];
    let lines = pack_columns(&entries, 10, "  ");
    assert_eq!(
        lines,
        vec!["a", "an-extremely-long-single-entry", "b"],
        "lines: {lines:?}"
    );
}

/// The PROJECT column keeps enough path to tell two same-named projects
/// apart — a leaf name alone renders them as identical rows.
#[test]
fn table_project_column_disambiguates_same_leaf_names() {
    let rows = vec![
        ProjectTableRow {
            path: "/work/api",
            status: Status::Cleanable,
            size: None,
            branch: None,
            changed: None,
        },
        ProjectTableRow {
            path: "/oss/api",
            status: Status::Cleanable,
            size: None,
            branch: None,
            changed: None,
        },
    ];
    let rendered = format_project_table(&rows, 2, None, 100, false);
    assert!(rendered[1].contains("/work/api"), "{:?}", rendered[1]);
    assert!(rendered[2].contains("/oss/api"), "{:?}", rendered[2]);
    assert_ne!(rendered[1], rendered[2]);
}

/// Over-long project paths keep their tail (the distinguishing part) and
/// lose the head to a leading ellipsis.
#[test]
fn table_project_column_truncates_from_the_left() {
    let rows = vec![ProjectTableRow {
        path: "/very/deeply/nested/workspace/tree/for/the/team/dashboard",
        status: Status::Cleanable,
        size: None,
        branch: None,
        changed: None,
    }];
    let rendered = format_project_table(&rows, 1, None, 84, false);
    assert!(rendered[1].contains('…'), "{:?}", rendered[1]);
    assert!(rendered[1].contains("dashboard"), "{:?}", rendered[1]);
}

/// The success panel reports the size it is handed — the caller measures
/// the approved items — and degrades to a count-only line without one.
#[test]
fn clean_success_reports_reclaimed_size_when_known() {
    let with_size =
        format_clean_success("/w/dashboard", 2, Some("1.2 GB"), 80, false)
            .join("\n");
    assert!(with_size.contains("~1.2 GB"), "{with_size}");
    assert!(with_size.contains("removed 2 item(s)"), "{with_size}");
    assert!(with_size.contains("dashboard"), "{with_size}");
    assert!(!with_size.contains("\x1b["), "{with_size}");

    let without =
        format_clean_success("/w/dashboard", 2, None, 80, false).join("\n");
    assert!(without.contains("✓ removed 2 item(s)"), "{without}");
    assert!(!without.contains("reclaimed"), "{without}");
}

#[test]
fn blocked_project_renders_refusal_and_next_action() {
    let rendered = format_blocked_project(
        "/workspace/design-system",
        Status::Wip,
        true,
        "feat/tokens · uncommitted changes · remote ✓",
        &[" M src/tokens/color.ts".to_string()],
        Some("540 MB"),
        100,
        false,
    )
    .join("\n");
    assert!(rendered.contains("refusing to clean"));
    assert!(rendered.contains("uncommitted work in progress"));
    assert!(rendered.contains("M src/tokens/color.ts"));
    assert!(rendered.contains("would become reclaimable"));
}

/// The refusal and the branch state sit two lines apart, so they must agree
/// about whether the project has commits. `Unpushed` covers a repo that has
/// never committed anything, and the panel's own header says so — a refusal
/// built from the status alone would contradict the line above it.
#[test]
fn blocked_refusal_agrees_with_the_branch_state_about_commits() {
    let render = |committed: bool, branch: &str| {
        format_blocked_project(
            "/workspace/api",
            Status::Unpushed,
            committed,
            branch,
            &[],
            None,
            100,
            false,
        )
        .join("\n")
    };

    let empty = render(false, "main · no commits yet · remote ✗ nothing pushed");
    assert!(empty.contains("no commits yet"), "{empty}");
    assert!(
        empty.contains("refusing to clean - nothing committed yet"),
        "{empty}"
    );
    assert!(!empty.contains("has unpushed commits"), "{empty}");

    let ahead = render(true, "main · local commits ahead · remote ✗ not pushed");
    assert!(
        ahead.contains("refusing to clean - has unpushed commits"),
        "{ahead}"
    );
    assert!(!ahead.contains("nothing committed"), "{ahead}");
}

/// The blocked panel carries the longest prose Offcut prints plus the full
/// project path in its rerun hint. Unwrapped, both overran an ordinary
/// 80-column terminal and soft-wrapped into the next line.
#[test]
fn blocked_panel_fits_the_terminal_width() {
    let path = "/var/folders/s0/zl64g7m92b7bf0d72vc0cskw0000gn/T/offcut-demo/projects/design-system";
    for width in EXTREME_WIDTHS {
        for emit_colors in [false, true] {
            for line in format_blocked_project(
                path,
                Status::Wip,
                true,
                "feat/tokens · uncommitted changes · remote ✓",
                &[" M src/tokens/color-primitives-and-aliases.ts".to_string()],
                Some("540 MB"),
                width,
                emit_colors,
            ) {
                let visible = strip_ansi(&line);
                assert!(
                    visible.width() <= width,
                    "width {width} (colors {emit_colors}): line of {} columns: {visible:?}",
                    visible.width()
                );
            }
        }
    }
}

/// The rerun hint is only worth printing if it can be run. Truncating the
/// whole command from the left ate `offcut clean ` first and left the
/// sentence pointing at a bare path fragment — for any project path past
/// 67 columns on an ordinary 80-column terminal.
#[test]
fn blocked_hint_keeps_the_command_runnable() {
    let path = "/Users/someone/work/very/deeply/nested/monorepo/packages/design-system-tokens";
    for width in [40, 60, 80, 100] {
        let rendered = format_blocked_project(
            path,
            Status::Wip,
            true,
            "feat/tokens · uncommitted changes · remote ✓",
            &[],
            None,
            width,
            false,
        )
        .join("\n");
        assert!(
            rendered.contains("offcut clean "),
            "width {width} lost the command verb: {rendered}"
        );
        assert!(
            rendered.contains("design-system-tokens"),
            "width {width} lost the project leaf: {rendered}"
        );
    }
}

/// Wrapping the blocked panel must not cost it the reason, the git detail,
/// or the command that unblocks the project.
#[test]
fn blocked_panel_keeps_its_content_when_wrapped() {
    let rendered = format_blocked_project(
        "/workspace/design-system",
        Status::Wip,
        true,
        "feat/tokens · uncommitted changes · remote ✓",
        &[" M src/tokens/color.ts".to_string()],
        Some("540 MB"),
        60,
        false,
    )
    .join("\n");
    assert!(rendered.contains("refusing to clean"), "{rendered}");
    assert!(rendered.contains("uncommitted work"), "{rendered}");
    assert!(rendered.contains("M src/tokens/color.ts"), "{rendered}");
    assert!(rendered.contains("offcut clean"), "{rendered}");
    assert!(rendered.contains("design-system"), "{rendered}");
}

/// An already-clean project is committed, pushed, and carries nothing
/// offcut may delete: refusing to clean it and telling the user to commit
/// and push is advice they cannot act on. It gets the nothing-to-reclaim
/// state instead.
#[test]
fn nothing_to_reclaim_state_makes_no_refusal() {
    let rendered = format_nothing_to_reclaim(
        "/workspace/dashboard",
        "main · clean tree · remote ✓ pushed",
        80,
        false,
    )
    .join("\n");
    assert!(rendered.contains("nothing to reclaim"), "{rendered}");
    assert!(rendered.contains("dashboard"), "{rendered}");
    assert!(rendered.contains(Status::Clean.label()), "{rendered}");
    assert!(!rendered.contains("refusing to clean"), "{rendered}");
    assert!(!rendered.contains("commit, push"), "{rendered}");

    for width in EXTREME_WIDTHS {
        for line in format_nothing_to_reclaim(
            "/workspace/dashboard",
            "main · clean tree · remote ✓ pushed",
            width,
            true,
        ) {
            let visible = strip_ansi(&line);
            assert!(
                visible.width() <= width,
                "width {width}: line of {} columns: {visible:?}",
                visible.width()
            );
        }
    }
}

/// The panel that closes a destructive run says what was removed and what
/// was left alone — and stays inside the terminal at every width, including
/// the ones narrower than its own reassurance sentence.
#[test]
fn clean_success_panel_fits_every_width() {
    let path = "/var/folders/s0/zl64g7m92b7bf0d72vc0cskw0000gn/T/demo/payments-api";
    let rendered = format_clean_success(path, 3, Some("1.2 GB"), 80, false).join("\n");
    assert!(rendered.contains("payments-api"), "{rendered}");
    assert!(rendered.contains("reclaimed ~1.2 GB"), "{rendered}");
    assert!(rendered.contains("tracked files untouched"), "{rendered}");

    for width in EXTREME_WIDTHS {
        for emit_colors in [false, true] {
            for reclaimed in [None, Some("1.2 GB")] {
                for line in format_clean_success(path, 3, reclaimed, width, emit_colors) {
                    let visible = strip_ansi(&line);
                    assert!(
                        visible.width() <= width,
                        "width {width} (colors {emit_colors}): line of {} columns: {visible:?}",
                        visible.width()
                    );
                }
            }
        }
    }
}

/// Every rendered line that carries a project path is bounded the same way,
/// panel or not: the lead keeps its columns, the path spends what is left
/// and keeps its leaf. A full path behind a fixed prefix is what soft-wraps
/// an otherwise carefully budgeted screen.
#[test]
fn path_lines_fit_every_width() {
    let path = "/var/folders/s0/zl64g7m92b7bf0d72vc0cskw0000gn/T/demo/payments-api";
    assert!(
        format_path_line("⟩ cleaning ", path, 80).contains("payments-api"),
        "the leaf survives at a normal width"
    );
    for width in EXTREME_WIDTHS {
        for lead in ["⟩ cleaning ", "⟩ skipped by user · "] {
            let visible = format_path_line(lead, path, width);
            assert!(
                visible.width() <= width,
                "width {width}, lead {lead:?}: line of {} columns: {visible:?}",
                visible.width()
            );
            for line in wrap_line("⟩ dry-run only - nothing deleted", width) {
                assert!(
                    line.width() <= width,
                    "width {width}: wrapped line of {} columns: {line:?}",
                    line.width()
                );
            }
        }
    }
}

/// `Clean` means no *unprotected* untracked junk, not an empty tree: a
/// project whose `node_modules` is protected by `.offcutignore` classifies
/// `Clean` with that output still on disk. The panel must not deny the
/// existence of the output offcut is deliberately preserving.
#[test]
fn nothing_to_reclaim_state_does_not_deny_protected_output() {
    let rendered = format_nothing_to_reclaim(
        "/workspace/dashboard",
        "main · clean tree · remote ✓ pushed",
        100,
        false,
    )
    .join(" ");
    assert!(
        !rendered.contains("was found"),
        "the state cannot claim nothing was found: {rendered}"
    );
    assert!(rendered.contains(".offcutignore"), "{rendered}");
    assert!(rendered.contains("protected"), "{rendered}");
}

/// Only a tree state the user can act on blocks cleaning. `Clean` is the
/// already-tidy outcome and `Cleanable` is what the flow acts on, so
/// neither may be routed to the refusal panel.
#[test]
fn only_actionable_tree_states_block_cleaning() {
    assert!(blocks_cleaning(Status::NoGit));
    assert!(blocks_cleaning(Status::NoRemote));
    assert!(blocks_cleaning(Status::Unpushed));
    assert!(blocks_cleaning(Status::Wip));
    assert!(!blocks_cleaning(Status::Cleanable));
    assert!(!blocks_cleaning(Status::Clean));
}

/// A one-project run must not read "1 projects".
#[test]
fn table_summary_counts_one_project_in_the_singular() {
    let rows = vec![ProjectTableRow {
        path: "/workspace/dashboard",
        status: Status::Cleanable,
        size: Some("1.2 GB"),
        branch: Some("main"),
        changed: Some("2h ago"),
    }];
    let one = format_project_table(&rows, 1, Some("1.2 GB"), 100, false).join("\n");
    assert!(one.contains("✓ 1 project"), "{one}");
    assert!(!one.contains("1 projects"), "{one}");

    let two = vec![rows[0], rows[0]];
    let many = format_project_table(&two, 2, Some("1.2 GB"), 100, false).join("\n");
    assert!(many.contains("✓ 2 projects"), "{many}");
}

#[test]
fn terminal_ui_disabled_for_non_tty_streams() {
    assert!(!terminal_ui_enabled(&terminal(), false));
}

/// `TERM=dumb` degrades to the plain presentation even on a real TTY,
/// and a capable (or unset) `TERM` on a TTY keeps the rich one.
#[test]
fn terminal_ui_gate_honors_term_and_tty() {
    let dumb = "dumb";
    let capable = "xterm-256color";
    assert!(!terminal_ui_enabled_with(true, Some(dumb)));
    assert!(terminal_ui_enabled_with(true, Some(capable)));
    assert!(terminal_ui_enabled_with(true, None));
    // A non-TTY stream is plain regardless of TERM: piped output must
    // stay line-oriented for scripts.
    assert!(!terminal_ui_enabled_with(false, Some(capable)));
    assert!(!terminal_ui_enabled_with(false, None));
}

/// The color gate is per-stream: a non-TTY stream never emits color.
#[test]
fn color_gate_is_off_for_non_tty_streams() {
    assert!(!color_enabled_for(&terminal(), false));
}

/// A direct terminal — a real pty, `stream_is_tty = true`, the case a test
/// against piped stdout can never reach — emits color only when the
/// terminal can render it. `TERM=dumb` is the canonical "cannot render
/// escapes" signal (Emacs `M-x shell` is exactly this: a pty with
/// `TERM=dumb`), so it degrades to plain text rather than printing SGR
/// sequences the terminal shows literally.
#[test]
fn color_gate_is_off_on_a_dumb_terminal() {
    let dumb = "dumb";
    let capable = "xterm-256color";
    assert!(!color_enabled_with(true, Some(dumb), false));
    assert!(color_enabled_with(true, Some(capable), false));
    assert!(color_enabled_with(true, None, false));
    assert!(!color_enabled_with(false, Some(capable), false));
    // The explicit conventions still win over a capable terminal.
    assert!(!color_enabled_with(true, Some(capable), true));
}

/// The color gate and the rich-UI gate agree about which terminals can
/// render escapes at all: whenever the rich presentation steps aside for an
/// incapable terminal, the plain fallback it hands over to is plain in
/// color too. Any divergence is escape-code garbage on screen.
#[test]
fn color_gate_never_outlives_the_rich_ui_gate() {
    let terms = [
        None,
        Some("dumb"),
        Some("xterm-256color"),
    ];
    for term in &terms {
        for stream_is_tty in [false, true] {
            for plain in [false, true] {
                let term = *term;
                assert!(
                    !color_enabled_with(stream_is_tty, term, plain)
                        || terminal_ui_enabled_with(stream_is_tty, term),
                    "tty {stream_is_tty}, TERM {term:?}: colored a terminal the rich UI skipped"
                );
            }
        }
    }
}

/// Every rich renderer degrades to plain text with `emit_colors = false`
/// — the state a piped stream, `NO_COLOR`, or `TERM=dumb` lands in.
#[test]
fn rich_renderers_emit_no_escapes_when_colors_are_off() {
    let table_rows = vec![ProjectTableRow {
        path: "/workspace/dashboard",
        status: Status::Cleanable,
        size: Some("1.2 GB"),
        branch: Some("main"),
        changed: Some("2h ago"),
    }];
    let items = vec![CleanItem {
        rel_path: "node_modules".to_string(),
        is_dir: true,
        classification: Classification::Safe,
    }];
    let review_rows = clean_review_rows(&items, |_| "will delete");
    let rendered = [
        format_project_table(&table_rows, 1, Some("1.2 GB"), 100, false),
        format_project_table(&table_rows, 1, Some("1.2 GB"), 40, false),
        format_clean_review("/w/dash", "main", &review_rows, None, 90, false),
        format_clean_review("/w/dash", "main", &review_rows, None, 40, false),
        format_blocked_project(
            "/w/dash",
            Status::Wip,
            true,
            "main · uncommitted changes",
            &[" M src/a.ts".to_string()],
            Some("540 MB"),
            90,
            false,
        ),
        format_nothing_to_reclaim("/w/dash", "main · clean tree", 90, false),
        format_clean_success("/w/dash", 1, Some("1.2 GB"), 90, false),
    ]
    .concat()
    .join("\n");
    assert!(!rendered.contains("\x1b["), "plain rendering: {rendered:?}");
}

/// Strip ANSI SGR sequences so a colored rendering can be compared
/// against the plain one column for column.
fn strip_ansi(text: &str) -> String {
    let mut out = String::new();
    let mut chars = text.chars();
    while let Some(c) = chars.next() {
        if c == '\x1b' {
            for next in chars.by_ref() {
                if next == 'm' {
                    break;
                }
            }
        } else {
            out.push(c);
        }
    }
    out
}

#[test]
fn json_mode_suppresses_the_rich_presentation() {
    let mut t = terminal();
    assert!(stdout_terminal_ui_enabled(&t) && stderr_terminal_ui_enabled(&t));
    assert!(stdout_color_enabled(&t) && stderr_color_enabled(&t));
    offcut::output::set_json_mode(&mut t, true);
    assert!(offcut::output::json_mode(&t));
    assert!(!stdout_terminal_ui_enabled(&t) && !stderr_terminal_ui_enabled(&t));
    assert!(!stdout_color_enabled(&t) && !stderr_color_enabled(&t));
}

#[test]
fn the_user_can_ask_for_plain_output() {
    let mut t = terminal();
    t.no_color = true;
    assert!(stdout_terminal_ui_enabled(&t) && !stdout_color_enabled(&t));
    let mut t = terminal();
    t.clicolor = Some("0".to_string());
    assert!(stdout_terminal_ui_enabled(&t) && !stdout_color_enabled(&t));
    t.clicolor = Some("1".to_string());
    assert!(stdout_color_enabled(&t));
}

#[test]
fn rows_and_summaries_read_so() {
    assert_eq!(
        format_project_row("/p", Status::Cleanable, Some(false), Some("2.30 GB"), &terminal()),
        "  [5] /p — cleanable (~2.30 GB)"
    );
    assert_eq!(
        format_project_row("/p", Status::Wip, Some(false), None, &terminal()),
        "  [4] /p — wip (uncommitted work in progress)"
    );
    assert_eq!(
        format_summary(5, Some(false), Some(3), Some("12 GB"), &terminal()),
        "listing: 5 project(s), 3 cleanable, ~12 GB reclaimable"
    );
}

#[test]
fn the_home_directory_is_shown_as_a_tilde() {
    let rows = [ProjectTableRow {
        path: "/home/me/code/app",
        status: Status::Clean,
        size: None,
        branch: None,
        changed: None,
    }];
    let lines = project_table_in(&rows, 0, None, 100, Some("/home/me"), false);
    assert!(lines[1].starts_with("~/code/app "), "{:?}", lines[1]);
    let lines = project_table_in(&rows, 0, None, 100, Some("/home/m"), false);
    assert!(lines[1].starts_with("/home/me/code/app "), "{:?}", lines[1]);
}

#[test]
fn combining_characters_can_be_wider_together() {
    // A heart with the emoji selector takes two columns, its parts one and none.
    assert_eq!(offcut::columns::width("\u{2764}\u{FE0F}"), 2);
    assert_eq!(offcut::columns::width("\u{2764}"), 1);
    assert_eq!(offcut::columns::take_left("\u{2764}\u{FE0F}x", 2), "\u{2764}\u{FE0F}x");
}

#[test]
fn widths_are_display_columns() {
    assert_eq!(offcut::columns::width("工程"), 4);
    assert_eq!(offcut::columns::take_left("工程目录", 5), "工程");
    assert_eq!(offcut::columns::take_right("工程目录", 5), "目录");
}
