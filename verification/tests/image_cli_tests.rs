use labworks::image_cli::{build_output_path, entries_to_process, parse_args, parse_resize};

fn args(v: &[&str]) -> Vec<String> {
    v.iter().map(|s| s.to_string()).collect()
}

#[test]
fn parse_resize_reads_width_and_height() {
    assert_eq!(parse_resize("200x100"), Ok((200, 100)));
    assert_eq!(parse_resize("200x100x7"), Ok((200, 100)));
    assert_eq!(parse_resize("200"), Err("Invalid format (expected widthxheight)".to_string()));
    assert_eq!(parse_resize("ax100"), Err("bad width".to_string()));
    assert_eq!(parse_resize("200x"), Err("bad height".to_string()));
    assert_eq!(parse_resize("x"), Err("bad width".to_string()));
}

#[test]
fn parse_args_builds_config() {
    let c = parse_args(&args(&["prog", "--files", "images.txt", "--resize", "200x200"]), Some("output".to_string()), true)
        .ok()
        .unwrap();
    assert_eq!(c.list_path, "images.txt");
    assert_eq!((c.width, c.height), (200, 200));
    assert_eq!(c.output_dir, "output");
}

#[test]
fn parse_args_reports_errors_in_order() {
    let e = |a: &[&str], d: Option<&str>, ex: bool| parse_args(&args(a), d.map(|s| s.to_string()), ex).err().unwrap();
    assert_eq!(e(&["p", "--bogus"], Some("o"), true), "Unknown arg: --bogus");
    assert_eq!(e(&["p", "--resize", "1x"], Some("o"), true), "bad height");
    assert_eq!(e(&["p", "--resize", "1x1"], Some("o"), true), "Missing --files");
    assert_eq!(e(&["p", "--files", "f"], Some("o"), true), "Missing --resize");
    assert_eq!(e(&["p", "--files", "f", "--resize", "1x1"], None, true), "MYME_FILES_PATH not set");
    assert_eq!(e(&["p", "--files", "f", "--resize", "1x1"], Some("o"), false), "Output dir does not exist");
}

#[test]
fn later_option_wins() {
    let c = parse_args(&args(&["p", "--files", "a", "--files", "b", "--resize", "1x2", "--resize", "3x4"]), Some("o".into()), true)
        .ok()
        .unwrap();
    assert_eq!(c.list_path, "b");
    assert_eq!((c.width, c.height), (3, 4));
}

#[test]
fn output_path_uses_stem_size_and_index() {
    assert_eq!(build_output_path("imgs/cat.photo.jpg", "out", 200, 100, 3), "out/cat_200x100_3.png");
    assert_eq!(build_output_path("/", "out", 1, 2, 0), "out/image_1x2_0.png");
    assert_eq!(build_output_path(".hidden", "out/", 5, 5, 12), "out/_5x5_12.png");
}

#[test]
fn blank_lines_are_skipped_but_counted() {
    let jobs = entries_to_process("a.png\n\n  \nb.jpg\r\n");
    assert_eq!(jobs, vec![(0, "a.png".to_string()), (3, "b.jpg".to_string())]);
}

#[test]
fn written_sizes_read_back() {
    for (w, h) in [(0u32, 0u32), (1, 2), (800, 600), (u32::MAX, 7), (10, u32::MAX)] {
        assert_eq!(parse_resize(&format!("{}x{}", w, h)), Ok((w, h)));
    }
}
