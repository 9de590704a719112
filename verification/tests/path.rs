use ritual::path::{
    chars_of, contains_chars, final_segment_of, has_extension_chars, is_data_file,
    COMPASS_BINARY_EXT, RUN_MARKER, SEPARATOR,
};
use ritual::project::is_run_dir;

fn segment(path: &str) -> String {
    final_segment_of(path).into_iter().collect()
}

fn chars(text: &str) -> Vec<char> {
    text.chars().collect()
}

#[test]
fn constants_are_what_the_instrument_writes() {
    assert_eq!(RUN_MARKER, "run_");
    assert_eq!(COMPASS_BINARY_EXT, "BIN");
    assert_eq!(SEPARATOR, '/');
}

#[test]
fn chars_of_keeps_every_character() {
    assert_eq!(chars_of("a/é.BIN"), vec!['a', '/', 'é', '.', 'B', 'I', 'N']);
    assert!(chars_of("").is_empty());
}

#[test]
fn final_segment_is_what_follows_the_last_separator() {
    assert_eq!(segment("/data/project/run_7"), "run_7");
    assert_eq!(segment("run_7"), "run_7");
    assert_eq!(segment("a/b/c.BIN"), "c.BIN");
}

#[test]
fn final_segment_leaves_separators_at_the_end_off() {
    assert_eq!(segment("/data/run_7/"), "run_7");
    assert_eq!(segment("/data/run_7///"), "run_7");
}

#[test]
fn final_segment_leaves_dot_segments_at_the_end_off() {
    assert_eq!(segment("/data/run_7/."), "run_7");
    assert_eq!(segment("/data/run_7/./"), "run_7");
    assert_eq!(segment("/data/run_7/././/."), "run_7");
    assert_eq!(segment("run_7/."), "run_7");
    assert_eq!(segment("/p/run_1/a.BIN/."), "a.BIN");
}

#[test]
fn final_segment_keeps_dots_that_belong_to_a_name() {
    assert_eq!(segment("/data/run_7."), "run_7.");
    assert_eq!(segment("/data/.hidden"), ".hidden");
    assert_eq!(segment("/data/a.b"), "a.b");
    assert_eq!(segment("/data/run_7/.."), "..");
    assert_eq!(segment("/data/dir/./name"), "name");
}

#[test]
fn final_segment_agrees_with_std_on_paths_that_name_something() {
    for path in [
        "/data/project/run_7",
        "/data/run_7/",
        "/data/run_7/.",
        "/data/run_7/./",
        "run_7",
        "./run_7",
        "a/b/c.BIN",
        "/p/run_1/a.BIN/.",
        "/data/.hidden",
        "/data/run_7.",
        "a//b",
    ] {
        let name = std::path::Path::new(path).file_name().expect("the path names something");
        assert_eq!(segment(path), name.to_str().expect("the name is text"));
    }
}

#[test]
fn final_segment_is_empty_or_dots_where_std_finds_no_name() {
    for path in ["", "/", "///", ".", "./", "/.", "/./.", ".."] {
        assert!(std::path::Path::new(path).file_name().is_none());
        let found = segment(path);
        assert!(found.is_empty() || found == "..");
    }
}

#[test]
fn final_segment_of_nothing_is_empty() {
    assert_eq!(segment(""), "");
    assert_eq!(segment("/"), "");
    assert_eq!(segment("///"), "");
    assert_eq!(segment("."), "");
    assert_eq!(segment("/."), "");
    assert_eq!(segment("././"), "");
}

#[test]
fn contains_finds_a_run_of_characters() {
    assert!(contains_chars(&chars("my_run_12"), &chars("run_")));
    assert!(contains_chars(&chars("run_"), &chars("run_")));
    assert!(contains_chars(&chars("xxrun_"), &chars("run_")));
    assert!(!contains_chars(&chars("run"), &chars("run_")));
    assert!(!contains_chars(&chars("ru_n"), &chars("run_")));
    assert!(!contains_chars(&chars(""), &chars("run_")));
}

#[test]
fn contains_finds_the_empty_needle_everywhere() {
    assert!(contains_chars(&chars("abc"), &chars("")));
    assert!(contains_chars(&chars(""), &chars("")));
}

#[test]
fn extension_needs_a_dot_and_a_stem() {
    assert!(has_extension_chars(&chars("a.BIN"), &chars("BIN")));
    assert!(has_extension_chars(&chars("a.b.BIN"), &chars("BIN")));
    assert!(has_extension_chars(&chars("..BIN"), &chars("BIN")));
    assert!(!has_extension_chars(&chars(".BIN"), &chars("BIN")));
    assert!(!has_extension_chars(&chars("BIN"), &chars("BIN")));
    assert!(!has_extension_chars(&chars("aBIN"), &chars("BIN")));
    assert!(!has_extension_chars(&chars("a.BINS"), &chars("BIN")));
    assert!(!has_extension_chars(&chars(""), &chars("BIN")));
}

#[test]
fn run_dir_has_the_marker_in_its_name() {
    assert!(is_run_dir("run_7"));
    assert!(is_run_dir("/data/project/run_7"));
    assert!(is_run_dir("/data/project/run_7/"));
    assert!(is_run_dir("/data/run_7/."));
    assert!(is_run_dir("/data/run_7/./"));
    assert!(is_run_dir("/data/project/my_run_0042_test"));
}

#[test]
fn run_dir_is_told_by_its_final_segment_only() {
    assert!(!is_run_dir("/data/run_7/UNFILTERED"));
    assert!(!is_run_dir("/run_1/other"));
    assert!(!is_run_dir("/data/project"));
    assert!(!is_run_dir("/data/run"));
    assert!(!is_run_dir("/data/RUN_7"));
    assert!(!is_run_dir("/data/run_7/.."));
    assert!(!is_run_dir("/data/run_7/other/."));
    assert!(!is_run_dir("."));
    assert!(!is_run_dir(""));
    assert!(!is_run_dir("/"));
}

#[test]
fn data_file_has_the_binary_extension() {
    assert!(is_data_file("/data/run_7/UNFILTERED/ch0.BIN"));
    assert!(is_data_file("ch0.BIN"));
    assert!(is_data_file("a.b.BIN"));
    assert!(is_data_file("/p/run_1/a.BIN/."));
    assert!(is_data_file("/p/run_1/a.BIN/"));
}

#[test]
fn data_file_agrees_with_std_on_the_extension() {
    for path in [
        "/data/run_7/ch0.BIN",
        "/p/run_1/a.BIN/.",
        "/data/run_7/ch0.bin",
        "/data/run_7/.BIN",
        "/data/run_7/..BIN",
        "/data/run_7/BIN",
        "/data/dir.BIN/readme",
        "/data/run_7/ch0.BIN.bak",
        "a.b.BIN",
        "",
    ] {
        let by_std = std::path::Path::new(path).extension().map(|e| e == "BIN").unwrap_or(false);
        assert_eq!(is_data_file(path), by_std);
    }
}

#[test]
fn other_files_are_no_data_files() {
    assert!(!is_data_file("/data/run_7/settings.xml"));
    assert!(!is_data_file("/data/run_7/ch0.bin"));
    assert!(!is_data_file("/data/run_7/ch0.BIN.bak"));
    assert!(!is_data_file("/data/run_7/.BIN"));
    assert!(!is_data_file("/data/run_7/BIN"));
    assert!(!is_data_file("/data/dir.BIN/readme"));
    assert!(!is_data_file("/data/run_7/UNFILTERED"));
    assert!(!is_data_file(""));
}
