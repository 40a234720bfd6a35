use file_spliter::config::SplitConfig;
use file_spliter::digits::parse_usize;
use file_spliter::digits::usize_to_string;
use file_spliter::errors::ErrorKind;
use file_spliter::errors::SplitError;
use file_spliter::paths::generate_part_filename;
use file_spliter::paths::join_path;
use file_spliter::paths::path_extension;
use file_spliter::paths::path_file_stem;
use file_spliter::paths::path_parent;
use file_spliter::plan::build_split_plan;
use file_spliter::plan::create_task_list;
use file_spliter::plan::parse_range_string;
use file_spliter::plan::select_mode;
use file_spliter::plan::split_whitespace_args;
use file_spliter::plan::validate_file;
use file_spliter::plan::validate_input_path;
use file_spliter::plan::InputStatus;
use file_spliter::plan::SplitMode;

fn good_status() -> InputStatus {
    InputStatus {
        exists: true,
        is_file: true,
        byte_len: 100,
    }
}

#[test]
fn config_rejects_a_zero_start() {
    let err = SplitConfig::new(0, 5, String::from("out.txt")).unwrap_err();
    assert_eq!(err.kind(), ErrorKind::Config);
    assert_eq!(err.message(), "Line 0 is invalid for out.txt. Start at 1.");
}

#[test]
fn config_rejects_an_inverted_range() {
    let err = SplitConfig::new(7, 3, String::from("out.txt")).unwrap_err();
    assert_eq!(err.kind(), ErrorKind::Config);
    assert_eq!(err.message(), "Logic Error: Start (7) > End (3) for out.txt");
}

#[test]
fn config_accepts_a_single_line_range() {
    let c = SplitConfig::new(4, 4, String::from("out.txt")).unwrap();
    assert_eq!(c.start, 4);
    assert_eq!(c.end, 4);
    assert_eq!(c.output_path, "out.txt");
}

#[test]
fn range_string_parses() {
    assert_eq!(parse_range_string(String::from("5-10")).unwrap(), (5, 10));
    assert_eq!(parse_range_string(String::from("007-8")).unwrap(), (7, 8));
}

#[test]
fn range_string_without_one_dash_is_rejected() {
    let err = parse_range_string(String::from("abc")).unwrap_err();
    assert_eq!(
        err.message(),
        "Invalid range format 'abc'. Use 'start-end'."
    );
    let err = parse_range_string(String::from("1-2-3")).unwrap_err();
    assert_eq!(
        err.message(),
        "Invalid range format '1-2-3'. Use 'start-end'."
    );
}

#[test]
fn range_string_with_bad_numbers_is_rejected() {
    let err = parse_range_string(String::from("x-5")).unwrap_err();
    assert_eq!(err.message(), "Invalid start number in 'x-5'");
    let err = parse_range_string(String::from("5-x")).unwrap_err();
    assert_eq!(err.message(), "Invalid end number in '5-x'");
    let err = parse_range_string(String::from("99999999999999999999-5")).unwrap_err();
    assert_eq!(
        err.message(),
        "Invalid start number in '99999999999999999999-5'"
    );
    let err = parse_range_string(String::from("-5")).unwrap_err();
    assert_eq!(err.message(), "Invalid start number in '-5'");
}

#[test]
fn numbers_render_and_parse_back() {
    assert_eq!(usize_to_string(0), "0");
    assert_eq!(usize_to_string(12345), "12345");
    assert_eq!(parse_usize("12345"), Some(12345));
    assert_eq!(parse_usize(""), None);
    assert_eq!(parse_usize("12a"), None);
}

#[test]
fn path_pieces_come_apart() {
    assert_eq!(path_parent("a/b.txt"), "a");
    assert_eq!(path_file_stem("a/b.txt"), "b");
    assert_eq!(path_extension("a/b.txt"), "txt");
    assert_eq!(path_parent("/x.md"), "/");
    assert_eq!(path_parent("plain.txt"), "");
    assert_eq!(path_file_stem(".bashrc"), ".bashrc");
    assert_eq!(path_extension(".bashrc"), "");
    assert_eq!(path_file_stem("foo."), "foo");
    assert_eq!(path_extension("foo."), "");
    assert_eq!(path_file_stem("dir/archive.tar.gz"), "archive.tar");
    assert_eq!(path_extension("dir/archive.tar.gz"), "gz");
}

#[test]
fn joining_inserts_one_slash() {
    assert_eq!(join_path("a", "b"), "a/b");
    assert_eq!(join_path("a/", "b"), "a/b");
    assert_eq!(join_path("", "b"), "b");
}

#[test]
fn part_filenames_carry_stem_position_and_extension() {
    assert_eq!(
        generate_part_filename("d", String::from("notes"), String::from("txt"), 0),
        "d/notes - Part 1.txt"
    );
    assert_eq!(
        generate_part_filename("", String::from("notes"), String::from(""), 11),
        "notes - Part 12"
    );
}

#[test]
fn task_list_for_two_ranges() {
    let configs = create_task_list(
        String::from("docs/big.txt"),
        &good_status(),
        vec![String::from("1-5"), String::from("6-10")],
    )
    .unwrap();
    assert_eq!(configs.len(), 2);
    assert_eq!(configs[0].start, 1);
    assert_eq!(configs[0].end, 5);
    assert_eq!(configs[0].output_path, "docs/big - Part 1.txt");
    assert_eq!(configs[1].start, 6);
    assert_eq!(configs[1].end, 10);
    assert_eq!(configs[1].output_path, "docs/big - Part 2.txt");
}

#[test]
fn task_list_requires_an_existing_file() {
    let missing = InputStatus {
        exists: false,
        is_file: false,
        byte_len: 0,
    };
    let err = create_task_list(String::from("gone.txt"), &missing, vec![String::from("1-2")])
        .unwrap_err();
    assert_eq!(err.kind(), ErrorKind::Input);
    assert_eq!(err.message(), "Input file not found: gone.txt");

    let not_a_file = InputStatus {
        exists: true,
        is_file: false,
        byte_len: 0,
    };
    let err = create_task_list(
        String::from("somedir"),
        &not_a_file,
        vec![String::from("1-2")],
    )
    .unwrap_err();
    assert_eq!(err.message(), "Input path is not a file: somedir");
}

#[test]
fn task_list_stops_at_the_first_offending_range() {
    let err = create_task_list(
        String::from("a.txt"),
        &good_status(),
        vec![String::from("1-2"), String::from("0-9"), String::from("zz")],
    )
    .unwrap_err();
    assert_eq!(err.message(), "Line 0 is invalid for a - Part 2.txt. Start at 1.");
}

#[test]
fn validators_name_the_path() {
    let err = validate_input_path(String::from("p"), &InputStatus {
        exists: false,
        is_file: false,
        byte_len: 0,
    })
    .unwrap_err();
    assert_eq!(err.message(), "Input file not found: p");
    let err = validate_file(String::from("p"), &InputStatus {
        exists: true,
        is_file: true,
        byte_len: 0,
    })
    .unwrap_err();
    assert_eq!(err.kind(), ErrorKind::Input);
    assert_eq!(err.message(), "Input file is empty (0 bytes): p");
    assert!(validate_file(String::from("p"), &good_status()).is_ok());
}

#[test]
fn manual_plan_honours_the_chosen_output_directory() {
    let configs = build_split_plan(
        String::from("in/source.log"),
        SplitMode::Manual {
            ranges: vec![String::from("2-3")],
            output_dir: Some(String::from("out")),
        },
        &good_status(),
        0,
    )
    .unwrap();
    assert_eq!(configs.len(), 1);
    assert_eq!(configs[0].output_path, "out/source - Part 1.log");
}

#[test]
fn auto_plan_lays_contiguous_windows() {
    let configs = build_split_plan(
        String::from("data.txt"),
        SplitMode::Auto {
            chunk_size: 3,
            output_dir: None,
        },
        &good_status(),
        10,
    )
    .unwrap();
    assert_eq!(configs.len(), 4);
    let bounds: Vec<(usize, usize)> = configs.iter().map(|c| (c.start, c.end)).collect();
    assert_eq!(bounds, vec![(1, 3), (4, 6), (7, 9), (10, 10)]);
    assert_eq!(configs[3].output_path, "data - Part 4.txt");
}

#[test]
fn auto_plan_with_exact_fit_has_no_short_tail() {
    let configs = build_split_plan(
        String::from("data.txt"),
        SplitMode::Auto {
            chunk_size: 5,
            output_dir: None,
        },
        &good_status(),
        10,
    )
    .unwrap();
    let bounds: Vec<(usize, usize)> = configs.iter().map(|c| (c.start, c.end)).collect();
    assert_eq!(bounds, vec![(1, 5), (6, 10)]);
}

#[test]
fn auto_plan_rejects_a_zero_chunk() {
    let err = build_split_plan(
        String::from("data.txt"),
        SplitMode::Auto {
            chunk_size: 0,
            output_dir: None,
        },
        &good_status(),
        10,
    )
    .unwrap_err();
    assert_eq!(err.kind(), ErrorKind::Config);
    assert_eq!(err.message(), "Chunk size must be at least 1");
}

#[test]
fn empty_input_is_rejected_before_any_plan_exists() {
    let empty = InputStatus {
        exists: true,
        is_file: true,
        byte_len: 0,
    };
    let err = build_split_plan(
        String::from("hollow.txt"),
        SplitMode::Auto {
            chunk_size: 3,
            output_dir: None,
        },
        &empty,
        0,
    )
    .unwrap_err();
    assert_eq!(err.kind(), ErrorKind::Input);
    assert_eq!(err.message(), "Input file is empty (0 bytes): hollow.txt");
}

#[test]
fn parameters_split_on_whitespace() {
    assert_eq!(
        split_whitespace_args(" 1-5\t6-10  11-12 "),
        vec![
            String::from("1-5"),
            String::from("6-10"),
            String::from("11-12")
        ]
    );
    assert_eq!(split_whitespace_args(""), Vec::<String>::new());
    assert_eq!(split_whitespace_args("   "), Vec::<String>::new());
    assert_eq!(split_whitespace_args("one"), vec![String::from("one")]);
}

#[test]
fn mode_switch_zero_reads_a_chunk_size() {
    let mode = select_mode(0, "250", Some(String::from("out"))).unwrap();
    match mode {
        SplitMode::Auto {
            chunk_size,
            output_dir,
        } => {
            assert_eq!(chunk_size, 250);
            assert_eq!(output_dir, Some(String::from("out")));
        }
        _ => panic!("expected auto mode"),
    }
    let err = select_mode(0, "lots", None).unwrap_err();
    assert_eq!(err.kind(), ErrorKind::Config);
    assert_eq!(err.message(), "Invalid chunk size: must be a positive number");
}

#[test]
fn any_other_switch_reads_manual_ranges() {
    let mode = select_mode(1, "1-5 6-10", None).unwrap();
    match mode {
        SplitMode::Manual { ranges, output_dir } => {
            assert_eq!(ranges, vec![String::from("1-5"), String::from("6-10")]);
            assert_eq!(output_dir, None);
        }
        _ => panic!("expected manual mode"),
    }
    let err = select_mode(1, "  ", None).unwrap_err();
    assert_eq!(err.message(), "No ranges provided");
}

#[test]
fn write_failures_carry_their_detail_verbatim() {
    let err = SplitError::WriteFailure {
        detail: String::from("Disk save error: out of space"),
    };
    assert_eq!(err.kind(), ErrorKind::Write);
    assert_eq!(err.message(), "Disk save error: out of space");
}
