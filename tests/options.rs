use dua::{configure, total_line, Config, Options, OptionsError, SizeReader};

fn plain() -> Options {
    Options {
        all: false,
        summarize: false,
        depth: None,
        block_size: None,
        giga: false,
        mega: false,
        human_readable: false,
        apparent_size: false,
        follow_symlink: false,
        null_terminated: false,
    }
}

#[test]
fn depth_with_summarize_is_refused() {
    let o = Options { summarize: true, depth: Some(String::from("0")), ..plain() };
    let e = configure(&o).unwrap_err();
    assert_eq!(e, OptionsError::DepthWithSummarize);
    assert_eq!(e.message(), "depth and summarize cannot be used together");
}

#[test]
fn defaults_print_roots_in_kilobyte_blocks() {
    let (config, term) = configure(&plain()).unwrap();
    assert_eq!(
        config,
        Config {
            display_files: false,
            max_depth: 0,
            follow_symlink: false,
            block_size: 1024,
            size_reader: SizeReader::BlockUsage,
            human_readable: false,
        }
    );
    assert_eq!(term, '\n');
}

#[test]
fn summarize_matches_depth_zero() {
    let s = configure(&Options { summarize: true, ..plain() }).unwrap();
    let d = configure(&Options { depth: Some(String::from("0")), ..plain() }).unwrap();
    assert_eq!(s, d);
}

#[test]
fn options_select_sizes_and_terminator() {
    let o = Options {
        all: true,
        depth: Some(String::from("3")),
        block_size: Some(b"4K".to_vec()),
        giga: true,
        apparent_size: true,
        follow_symlink: true,
        null_terminated: true,
        human_readable: true,
        ..plain()
    };
    let (config, term) = configure(&o).unwrap();
    assert_eq!(config.max_depth, 3);
    assert_eq!(config.block_size, 4096);
    assert!(config.display_files && config.follow_symlink && config.human_readable);
    assert_eq!(config.size_reader, SizeReader::ApparentSize);
    assert_eq!(term, '\0');
    let g = configure(&Options { giga: true, ..plain() }).unwrap().0;
    assert_eq!(g.block_size, 1 << 30);
    let m = configure(&Options { mega: true, ..plain() }).unwrap().0;
    assert_eq!(m.block_size, 1 << 20);
}

#[test]
fn bad_depth_and_block_size_are_refused() {
    let bad_depth = Options { depth: Some(String::from("x")), ..plain() };
    assert_eq!(configure(&bad_depth), Err(OptionsError::BadDepth));
    let zero = Options { block_size: Some(b"0K".to_vec()), ..plain() };
    assert_eq!(configure(&zero), Err(OptionsError::BadBlockSize));
    assert_eq!(OptionsError::BadDepth.message(), "Value has to be a number and >= 0");
}

#[test]
fn total_line_renders_grand_total() {
    let (config, _) = configure(&plain()).unwrap();
    assert_eq!(total_line(&config, 3000), "3\ttotal\n");
    let human = Config { human_readable: true, ..config };
    assert_eq!(total_line(&human, 1536), "1.5K\ttotal\n");
}
