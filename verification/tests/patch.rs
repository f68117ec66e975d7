use githerb::patch::{parse, Change, Line, LineKind, ParseError, Side};

const MODIFIED_AND_ADDED: &str = "\
diff --git a/README.md b/README.md
index 3b1ba0c..4f1abde 100644
--- a/README.md
+++ b/README.md
@@ -1,4 +1,4 @@
-# githerb
+# githerb (demo)

 Code review and a gate for trunk, in one binary, with no server.

diff --git a/cmd/githerb/extra.go b/cmd/githerb/extra.go
new file mode 100644
index 0000000..0b5c82e
--- /dev/null
+++ b/cmd/githerb/extra.go
@@ -0,0 +1,3 @@
+package main
+
+func extra() int { return 1 }
";

#[test]
fn reads_every_file_with_its_change() -> Result<(), ParseError> {
    let patch = parse(MODIFIED_AND_ADDED)?;
    let changes: Vec<(&str, &Change)> = patch
        .files()
        .iter()
        .map(|file| (file.path(), file.change()))
        .collect();
    assert_eq!(
        changes,
        vec![
            ("README.md", &Change::Modified),
            ("cmd/githerb/extra.go", &Change::Added)
        ]
    );
    Ok(())
}

#[test]
fn numbers_lines_on_the_sides_they_exist_on() -> Result<(), ParseError> {
    let patch = parse(MODIFIED_AND_ADDED)?;
    let readme = patch.file("README.md").unwrap();
    let numbered: Vec<(LineKind, Option<u32>, Option<u32>)> = readme
        .lines()
        .iter()
        .map(|line| (line.kind(), line.old_number(), line.new_number()))
        .collect();
    assert_eq!(
        numbered,
        vec![
            (LineKind::Removed, Some(1), None),
            (LineKind::Added, None, Some(1)),
            (LineKind::Context, Some(2), Some(2)),
            (LineKind::Context, Some(3), Some(3)),
            (LineKind::Context, Some(4), Some(4)),
        ]
    );
    Ok(())
}

#[test]
fn an_added_file_starts_counting_at_one() -> Result<(), ParseError> {
    let patch = parse(MODIFIED_AND_ADDED)?;
    let extra = patch.file("cmd/githerb/extra.go").unwrap();
    assert_eq!(
        extra.line(Side::New, 3).map(Line::text),
        Some("func extra() int { return 1 }")
    );
    assert_eq!(extra.line(Side::Old, 1), None);
    Ok(())
}

#[test]
fn counts_added_and_removed() -> Result<(), ParseError> {
    let patch = parse(MODIFIED_AND_ADDED)?;
    assert_eq!((patch.added(), patch.removed()), (4, 1));
    assert_eq!(
        (
            patch.file("README.md").unwrap().added(),
            patch.file("README.md").unwrap().removed()
        ),
        (1, 1)
    );
    Ok(())
}

#[test]
fn keeps_the_hunk_header_verbatim() -> Result<(), ParseError> {
    let patch = parse(MODIFIED_AND_ADDED)?;
    assert_eq!(
        patch.file("README.md").unwrap().hunks()[0].header(),
        "@@ -1,4 +1,4 @@"
    );
    Ok(())
}

#[test]
fn a_second_hunk_restarts_the_numbering() -> Result<(), ParseError> {
    let diff = "\
diff --git a/f b/f
--- a/f
+++ b/f
@@ -1,2 +1,2 @@
-a
+A
 b
@@ -10,2 +10,3 @@ fn section
 j
+J
 k
";
    let patch = parse(diff)?;
    let file = patch.file("f").unwrap();
    assert_eq!(file.hunks()[1].header(), "@@ -10,2 +10,3 @@ fn section");
    assert_eq!(file.line(Side::New, 11).map(Line::text), Some("J"));
    assert_eq!(file.line(Side::Old, 11).map(Line::text), Some("k"));
    Ok(())
}

#[test]
fn deleted_renamed_and_binary_files() -> Result<(), ParseError> {
    let diff = "\
diff --git a/gone.txt b/gone.txt
deleted file mode 100644
index e69de29..0000000
--- a/gone.txt
+++ /dev/null
@@ -1 +0,0 @@
-bye
diff --git a/old.rs b/new.rs
similarity index 90%
rename from old.rs
rename to new.rs
index 1111111..2222222 100644
--- a/old.rs
+++ b/new.rs
@@ -1 +1 @@
-x
+y
diff --git a/logo.png b/logo.png
new file mode 100644
index 0000000..3333333
Binary files /dev/null and b/logo.png differ
";
    let patch = parse(diff)?;
    let summary: Vec<(&str, &Change, bool)> = patch
        .files()
        .iter()
        .map(|file| (file.path(), file.change(), file.is_binary()))
        .collect();
    assert_eq!(
        summary,
        vec![
            ("gone.txt", &Change::Deleted, false),
            (
                "new.rs",
                &Change::Renamed {
                    from: "old.rs".to_owned()
                },
                false
            ),
            ("logo.png", &Change::Added, true),
        ]
    );
    assert_eq!(
        patch
            .file("gone.txt")
            .unwrap()
            .line(Side::Old, 1)
            .map(Line::text),
        Some("bye")
    );
    Ok(())
}

#[test]
fn a_missing_trailing_newline_marker_is_not_a_line() -> Result<(), ParseError> {
    let diff = "\
diff --git a/f b/f
--- a/f
+++ b/f
@@ -1 +1 @@
-a
\\ No newline at end of file
+b
\\ No newline at end of file
";
    let patch = parse(diff)?;
    assert_eq!(patch.file("f").unwrap().lines().len(), 2);
    Ok(())
}

#[test]
fn an_empty_diff_has_no_files() -> Result<(), ParseError> {
    assert_eq!(parse("")?.files().len(), 0);
    Ok(())
}

#[test]
fn a_bad_hunk_header_is_refused() {
    let diff = "diff --git a/f b/f\n--- a/f\n+++ b/f\n@@ nonsense @@\n+x\n";
    assert_eq!(
        parse(diff),
        Err(ParseError::BadHunkHeader("@@ nonsense @@".to_owned()))
    );
}

#[test]
fn a_changed_line_before_any_hunk_is_refused() {
    let diff = "diff --git a/f b/f\n--- a/f\n+++ b/f\n+x\n";
    assert_eq!(
        parse(diff),
        Err(ParseError::LineOutsideHunk("+x".to_owned()))
    );
}
