use chess_core::uci::commands::{Commands, OptionsType};
use chess_core::uci::option_table::{button_option, option_table, spin_option};
use chess_core::uci::parser::{split_words, UCIParser, START_POS};
use chess_core::general::text::{byte_is_space, parse_number, parse_u32, same_bytes, split_fields};

fn words(list: &[&str]) -> Vec<Vec<u8>> {
    list.iter().map(|w| w.as_bytes().to_vec()).collect()
}

#[test]
fn plain_commands() {
    assert!(matches!(UCIParser::parse("uci"), Commands::Uci));
    assert!(matches!(UCIParser::parse("  isready \r\n"), Commands::IsReady));
    assert!(matches!(UCIParser::parse("ucinewgame"), Commands::UciNewGame));
    assert!(matches!(UCIParser::parse("stop"), Commands::Stop));
    assert!(matches!(UCIParser::parse("quit now"), Commands::Quit));
    assert!(matches!(UCIParser::parse("help"), Commands::Help));
    match UCIParser::parse("hello world") {
        Commands::Unknown(text) => assert_eq!(text, b"hello".to_vec()),
        _ => panic!(),
    }
    match UCIParser::parse(" \r\n") {
        Commands::Unknown(text) => assert_eq!(text, b" \r\n".to_vec()),
        _ => panic!(),
    }
    match UCIParser::parse("UCI") {
        Commands::Unknown(text) => assert_eq!(text, b"UCI".to_vec()),
        _ => panic!(),
    }
}

#[test]
fn position_commands() {
    match UCIParser::parse("position startpos") {
        Commands::Position { fen, moves } => {
            assert_eq!(fen, START_POS.as_bytes().to_vec());
            assert_eq!(moves, None);
        },
        _ => panic!(),
    }
    match UCIParser::parse("position startpos moves e2e4   e7e5\n") {
        Commands::Position { fen, moves } => {
            assert_eq!(fen, START_POS.as_bytes().to_vec());
            assert_eq!(moves, Some(words(&["e2e4", "e7e5"])));
        },
        _ => panic!(),
    }
    match UCIParser::parse("position fen 8/8/8/8/8/4k3/4p3/4K3   w - - 0 1 moves e1d1") {
        Commands::Position { fen, moves } => {
            assert_eq!(fen, b"8/8/8/8/8/4k3/4p3/4K3 w - - 0 1".to_vec());
            assert_eq!(moves, Some(words(&["e1d1"])));
        },
        _ => panic!(),
    }
    match UCIParser::parse("position fen k7/8/8/8/8/8/8/7K moves") {
        Commands::Position { fen, moves } => {
            assert_eq!(fen, b"k7/8/8/8/8/8/8/7K".to_vec());
            assert_eq!(moves, None);
        },
        _ => panic!(),
    }
    assert!(matches!(UCIParser::parse("position"), Commands::IncorrectFormat));
    assert!(matches!(UCIParser::parse("position fen"), Commands::IncorrectFormat));
    assert!(matches!(UCIParser::parse("position fen moves e2e4"), Commands::IncorrectFormat));
    assert!(matches!(UCIParser::parse("position here"), Commands::IncorrectFormat));
}

#[test]
fn go_commands() {
    match UCIParser::parse("go") {
        Commands::Go { move_time, wtime, btime, winc, binc, moves_to_go } => {
            assert_eq!((move_time, wtime, btime, winc, binc, moves_to_go), (None, None, None, None, None, None));
        },
        _ => panic!(),
    }
    match UCIParser::parse("go wtime 1000 btime 2000 winc 3 binc 4 movestogo 5") {
        Commands::Go { move_time, wtime, btime, winc, binc, moves_to_go } => {
            assert_eq!((move_time, wtime, btime, winc, binc, moves_to_go), (None, Some(1000), Some(2000), Some(3), Some(4), Some(5)));
        },
        _ => panic!(),
    }
    match UCIParser::parse("go movetime 4294967295 movetime 7 wtime") {
        Commands::Go { move_time, wtime, .. } => {
            assert_eq!(move_time, Some(7));
            assert_eq!(wtime, None);
        },
        _ => panic!(),
    }
    assert!(matches!(UCIParser::parse("go movetime 4294967296"), Commands::IncorrectFormat));
    assert!(matches!(UCIParser::parse("go movetime -5"), Commands::IncorrectFormat));
    assert!(matches!(UCIParser::parse("go movetime soon"), Commands::IncorrectFormat));
    assert!(matches!(UCIParser::parse("go depth 5"), Commands::IncorrectFormat));
}

#[test]
fn perft_commands() {
    assert!(matches!(UCIParser::parse("perft 6"), Commands::Perft { depth: 6 }));
    assert!(matches!(UCIParser::parse("perft 06 7"), Commands::Perft { depth: 6 }));
    assert!(matches!(UCIParser::parse("perft"), Commands::IncorrectFormat));
    assert!(matches!(UCIParser::parse("perft six"), Commands::IncorrectFormat));
    assert!(matches!(UCIParser::parse_perft(&words(&["perft", "3"])), Commands::Perft { depth: 3 }));
}

#[test]
fn set_option_commands() {
    match UCIParser::parse("setoption name Hash value 64") {
        Commands::SetOption { options_type: OptionsType::Spin { name, value } } => {
            assert_eq!(name, b"Hash".to_vec());
            assert_eq!(value, 64);
        },
        _ => panic!(),
    }
    match UCIParser::parse("setoption name Threads value 1024") {
        Commands::SetOption { options_type: OptionsType::Spin { name, value } } => {
            assert_eq!(name, b"Threads".to_vec());
            assert_eq!(value, 1024);
        },
        _ => panic!(),
    }
    match UCIParser::parse("setoption name Clear   Hash") {
        Commands::SetOption { options_type: OptionsType::Button { name } } => assert_eq!(name, b"Clear Hash".to_vec()),
        _ => panic!(),
    }
    for line in [
        "setoption",
        "setoption Hash value 64",
        "setoption name",
        "setoption name value 64",
        "setoption name Hash",
        "setoption name Hash value",
        "setoption name Hash value 0",
        "setoption name Hash value 32769",
        "setoption name Hash value many",
        "setoption name Hash value 1 2",
        "setoption name Threads value 1025",
        "setoption name Ponder value 1",
        "setoption name hash value 64",
    ] {
        assert!(matches!(UCIParser::parse(line), Commands::IncorrectFormat), "{}", line);
    }
    assert!(matches!(
        UCIParser::parse("setoption name Hash value 32768"),
        Commands::SetOption { options_type: OptionsType::Spin { value: 32768, .. } }
    ));
    assert!(matches!(
        UCIParser::parse("setoption name Hash value 1"),
        Commands::SetOption { options_type: OptionsType::Spin { value: 1, .. } }
    ));
}

#[test]
fn option_table_entries() {
    assert_eq!(spin_option(b"Hash"), Some((1, 32768, 16)));
    assert_eq!(spin_option(b"Threads"), Some((1, 1024, 1)));
    assert_eq!(spin_option(b"Clear Hash"), None);
    assert!(button_option(b"Clear Hash"));
    assert!(!button_option(b"Hash"));
    let text = option_table();
    assert_eq!(text.lines().count(), 3);
    assert!(text.starts_with("option name Hash type spin default 16 min 1 max 32768\n"));
    assert!(text.ends_with("option name Clear Hash type button\n"));
}

#[test]
fn fields_and_numbers() {
    assert_eq!(split_fields(b" ab  c\td\n"), vec![(1, 3), (5, 6), (7, 8)]);
    assert_eq!(split_fields(b""), vec![]);
    assert_eq!(split_fields(b"  \r\n"), vec![]);
    assert_eq!(split_fields(b"x"), vec![(0, 1)]);
    assert_eq!(split_words(b"go  now "), words(&["go", "now"]));
    assert!(byte_is_space(b' ') && byte_is_space(b'\t') && byte_is_space(b'\n') && byte_is_space(b'\r'));
    assert!(byte_is_space(11) && byte_is_space(12));
    assert!(!byte_is_space(b'a') && !byte_is_space(0) && !byte_is_space(8) && !byte_is_space(14));
    assert_eq!(parse_u32(b"0"), Some(0));
    assert_eq!(parse_u32(b"007"), Some(7));
    assert_eq!(parse_u32(b"4294967295"), Some(4294967295));
    assert_eq!(parse_u32(b"4294967296"), None);
    assert_eq!(parse_u32(b"99999999999999999999999999"), None);
    assert_eq!(parse_u32(b""), None);
    assert_eq!(parse_u32(b"12a"), None);
    assert_eq!(parse_u32(b"+1"), None);
    assert_eq!(parse_number(b"255", 255), Some(255));
    assert_eq!(parse_number(b"256", 255), None);
    assert!(same_bytes(b"abc", b"abc"));
    assert!(!same_bytes(b"abc", b"abd"));
    assert!(!same_bytes(b"abc", b"ab"));
    assert!(same_bytes(b"", b""));
}
