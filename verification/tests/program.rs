use binder::error::BinderError;
use binder::session::{
    on_chunked_flush, on_created, on_key, on_search, on_shared_flush, on_tap, Failure, KeyStep, SessionStep,
};
use binder::startup::{
    desktop_window_size, find_kagami_tid, locate_kagami, parse_kagami_tid_from_args, tid_of_arg, ScreenInfo,
    SearchStep,
};

fn args(list: &[&str]) -> Vec<String> {
    list.iter().map(|a| a.to_string()).collect()
}

#[test]
fn argument_gives_the_thread() {
    assert_eq!(tid_of_arg("--kagami-tid=42"), Some(42));
    assert_eq!(tid_of_arg("--kagami-tid=+42"), Some(42));
    assert_eq!(tid_of_arg("--kagami-tid=00000000000000000000000042"), Some(42));
    assert_eq!(tid_of_arg("--kagami-tid=18446744073709551615"), Some(u64::MAX));
}

#[test]
fn bad_arguments_give_nothing() {
    for arg in [
        "",
        "42",
        "--kagami-tid",
        "--kagami-tid=",
        "--kagami-tid=+",
        "--kagami-tid=++1",
        "--kagami-tid=-1",
        "--kagami-tid=0",
        "--kagami-tid=+00",
        "--kagami-tid= 1",
        "--kagami-tid=1 ",
        "--kagami-tid=1_0",
        "--kagami-tid=0x10",
        "--kagami-tid=\u{661}",
        "\u{3042}--kagami-tid=1",
        "-kagami-tid=1",
        "--Kagami-tid=1",
        "--kagami-tid=18446744073709551616",
        "--kagami-tid=99999999999999999999",
        "--kagami-tid=340282366920938463463374607431768211456",
    ] {
        assert_eq!(tid_of_arg(arg), None, "{}", arg);
    }
}

#[test]
fn numbers_are_parsed_as_by_the_standard_library() {
    for text in [
        "0", "1", "+1", "", "+", "-", "-1", "-0", "+0", "1+", "a", "12a", "9", "10", "18446744073709551614",
        "18446744073709551615", "18446744073709551616", "28446744073709551615", "184467440737095516150",
        "000018446744073709551615", "+18446744073709551615", "/", ":",
    ] {
        let expected = text.parse::<u64>().ok().filter(|tid| *tid != 0);
        assert_eq!(tid_of_arg(&format!("--kagami-tid={}", text)), expected, "{}", text);
    }
}

#[test]
fn first_argument_wins_and_the_program_name_does_not_count() {
    assert_eq!(parse_kagami_tid_from_args(&args(&[])), None);
    assert_eq!(parse_kagami_tid_from_args(&args(&["--kagami-tid=5"])), None);
    assert_eq!(parse_kagami_tid_from_args(&args(&["binder", "--kagami-tid=5", "--kagami-tid=6"])), Some(5));
    assert_eq!(
        parse_kagami_tid_from_args(&args(&["binder", "x", "--kagami-tid=0", "--kagami-tid=y", "--kagami-tid=7"])),
        Some(7)
    );
}

#[test]
fn candidates_are_tried_in_order() {
    let mut names = Vec::new();
    let mut step = find_kagami_tid();
    let found = loop {
        step = match step {
            SearchStep::Find { name, then } => {
                names.push(name);
                then.on_result(None)
            }
            SearchStep::Done(found) => break found,
        };
    };
    assert_eq!(names, ["/Applications/Kagami.app/entry.elf", "Kagami.app", "entry.elf"]);
    assert_eq!(found, None);
}

#[test]
fn first_running_candidate_wins() {
    match find_kagami_tid() {
        SearchStep::Find { then, .. } => match then.on_result(None) {
            SearchStep::Find { name, then } => {
                assert_eq!(name, "Kagami.app");
                assert_eq!(then.on_result(Some(8)), SearchStep::Done(Some(8)));
            }
            other => panic!("{:?}", other),
        },
        other => panic!("{:?}", other),
    }
}

#[test]
fn arguments_come_before_the_search() {
    assert_eq!(locate_kagami(&args(&["binder", "--kagami-tid=5"])), SearchStep::Done(Some(5)));
    assert_eq!(locate_kagami(&args(&["binder"])), find_kagami_tid());
}

#[test]
fn window_sizes() {
    let size = |width, height| desktop_window_size(Some(ScreenInfo { width, height }));
    assert_eq!(desktop_window_size(None), (1280, 800));
    assert_eq!(size(1920, 1080), (1920, 1080));
    assert_eq!(size(0, 0), (1, 1));
    assert_eq!(size(65535, 65536), (65535, 65535));
    assert_eq!(size(u32::MAX, 1), (65535, 1));
}

#[test]
fn course_of_the_program() {
    let e = BinderError::SendFlushChunk;
    assert_eq!(on_search(None), SessionStep::Quit(Failure::KagamiNotFound));
    assert_eq!(on_search(Some(3)), SessionStep::CreateWindow { tid: 3 });
    assert_eq!(on_created(3, Ok(4)), SessionStep::FlushShared { tid: 3, window_id: 4 });
    assert_eq!(on_created(3, Err(e)), SessionStep::Quit(Failure::CreateWindow(e)));
    assert_eq!(on_shared_flush(3, 4, Ok(())), SessionStep::Watch);
    assert_eq!(on_shared_flush(3, 4, Err(e)), SessionStep::FlushChunked { tid: 3, window_id: 4, cause: e });
    assert_eq!(on_chunked_flush(Ok(())), SessionStep::Watch);
    assert_eq!(on_chunked_flush(Err(e)), SessionStep::Quit(Failure::Flush(e)));
}

#[test]
fn escape_key_ends_the_program() {
    for sc in 0..=255u8 {
        let step = if sc == 0x01 || sc == 0x81 { KeyStep::Exit } else { KeyStep::Yield };
        assert_eq!(on_tap(Ok(Some(sc))), step);
        assert_eq!(on_key(Some(sc)), step);
    }
    assert_eq!(on_key(None), KeyStep::Yield);
    assert_eq!(on_tap(Ok(None)), KeyStep::ReadKeyboard);
    assert_eq!(on_tap(Err(())), KeyStep::ReadKeyboard);
}
