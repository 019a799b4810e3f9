//! Reading the lines of the protocol.

use vstd::prelude::*;
use vstd::slice::{slice_subrange, slice_to_vec};
use vstd::string::StringSliceAdditionalSpecFns;
use crate::general::text::{fields, number, parse_number, parse_u32, same_bytes, split_fields};
use crate::uci::commands::{views, Commands, CommandsView, OptionsType, OptionsView};
use crate::uci::option_table::{button_option, is_button, spin_bounds, spin_option};

verus! {

pub struct UCIParser {}

/// The position from which a game begins.
pub const START_POS: &'static str = "rnbqkbnr/pppppppp/8/8/8/8/PPPPPPPP/RNBQKBNR w KQkq - 0 1";

/// The texts of `tokens` from the place `from` up to the place `to`, with one blank between
/// each two.
pub open spec fn joined(tokens: Seq<Seq<u8>>, from: int, to: int) -> Seq<u8>
    decreases to - from,
{
    if to <= from {
        Seq::empty()
    } else if to == from + 1 {
        tokens[from]
    } else {
        joined(tokens, from, to - 1) + seq![32u8] + tokens[to - 1]
    }
}

/// The first place from `from` on that holds `word`; the length of `tokens` if none does.
pub open spec fn find_word(tokens: Seq<Seq<u8>>, word: Seq<u8>, from: int) -> int
    decreases tokens.len() - from,
{
    if from < 0 || from >= tokens.len() {
        tokens.len() as int
    } else if tokens[from] == word {
        from
    } else {
        find_word(tokens, word, from + 1)
    }
}

pub proof fn lemma_find_word(tokens: Seq<Seq<u8>>, word: Seq<u8>, from: int)
    requires
        0 <= from <= tokens.len(),
    ensures
        from <= find_word(tokens, word, from) <= tokens.len(),
    decreases tokens.len() - from,
{
    if from < tokens.len() && tokens[from] != word {
        lemma_find_word(tokens, word, from + 1);
    }
}

/// The times that a `go` command gives.
pub struct GoParams {
    pub move_time: Option<u32>,
    pub wtime: Option<u32>,
    pub btime: Option<u32>,
    pub winc: Option<u32>,
    pub binc: Option<u32>,
    pub moves_to_go: Option<u32>,
}

/// `acc` with the value `value` for the time that `word` names; `None` if it names none.
pub open spec fn with_time(acc: GoParams, word: Seq<u8>, value: u32) -> Option<GoParams> {
    if word == "movetime".spec_bytes() {
        Some(GoParams { move_time: Some(value), ..acc })
    } else if word == "wtime".spec_bytes() {
        Some(GoParams { wtime: Some(value), ..acc })
    } else if word == "btime".spec_bytes() {
        Some(GoParams { btime: Some(value), ..acc })
    } else if word == "winc".spec_bytes() {
        Some(GoParams { winc: Some(value), ..acc })
    } else if word == "binc".spec_bytes() {
        Some(GoParams { binc: Some(value), ..acc })
    } else if word == "movestogo".spec_bytes() {
        Some(GoParams { moves_to_go: Some(value), ..acc })
    } else {
        None
    }
}

/// The times that the words from the place `i` on give, two words for each: the name of a time
/// and its value. A last word without a value is not read.
pub open spec fn go_from(tokens: Seq<Seq<u8>>, i: int, acc: GoParams) -> Option<GoParams>
    decreases tokens.len() - i,
{
    if i < 0 || i + 1 >= tokens.len() {
        Some(acc)
    } else {
        match number(tokens[i + 1], u32::MAX as int) {
            None => None,
            Some(value) => match with_time(acc, tokens[i], value as u32) {
                None => None,
                Some(next) => go_from(tokens, i + 2, next),
            },
        }
    }
}

/// What a `go` line says.
pub open spec fn go_command(tokens: Seq<Seq<u8>>) -> CommandsView {
    match go_from(
        tokens,
        1,
        GoParams { move_time: None, wtime: None, btime: None, winc: None, binc: None, moves_to_go: None },
    ) {
        Some(times) => CommandsView::Go {
            move_time: times.move_time,
            wtime: times.wtime,
            btime: times.btime,
            winc: times.winc,
            binc: times.binc,
            moves_to_go: times.moves_to_go,
        },
        None => CommandsView::IncorrectFormat,
    }
}

/// What a `perft` line says.
pub open spec fn perft_command(tokens: Seq<Seq<u8>>) -> CommandsView {
    if tokens.len() < 2 {
        CommandsView::IncorrectFormat
    } else {
        match number(tokens[1], u32::MAX as int) {
            Some(depth) => CommandsView::Perft { depth: depth as u32 },
            None => CommandsView::IncorrectFormat,
        }
    }
}

/// What a `position` line says: after `fen` the text of a position up to the word `moves`,
/// or `startpos`; then, after `moves`, the moves to make.
pub open spec fn position_command(tokens: Seq<Seq<u8>>) -> CommandsView {
    let moves_at = find_word(tokens, "moves".spec_bytes(), 0);
    let moves = if moves_at + 1 >= tokens.len() {
        None
    } else {
        Some(tokens.subrange(moves_at + 1, tokens.len() as int))
    };
    if tokens.len() < 2 {
        CommandsView::IncorrectFormat
    } else if tokens[1] == "startpos".spec_bytes() {
        CommandsView::Position { fen: START_POS.spec_bytes(), moves }
    } else if tokens[1] == "fen".spec_bytes() {
        let end = find_word(tokens, "moves".spec_bytes(), 2);
        if end <= 2 {
            CommandsView::IncorrectFormat
        } else {
            CommandsView::Position { fen: joined(tokens, 2, end), moves }
        }
    } else {
        CommandsView::IncorrectFormat
    }
}

/// What a `setoption` line says: after `name` the name of an option up to the word `value`,
/// and for a spin option after `value` a number within the bounds of the option.
pub open spec fn set_option_command(tokens: Seq<Seq<u8>>) -> CommandsView {
    if tokens.len() < 2 || tokens[1] != "name".spec_bytes() {
        CommandsView::IncorrectFormat
    } else {
        let end = find_word(tokens, "value".spec_bytes(), 2);
        let name = joined(tokens, 2, end);
        if end <= 2 {
            CommandsView::IncorrectFormat
        } else if spin_bounds(name).is_some() {
            let bounds = spin_bounds(name).unwrap();
            if end + 1 >= tokens.len() {
                CommandsView::IncorrectFormat
            } else {
                match number(joined(tokens, end + 1, tokens.len() as int), u16::MAX as int) {
                    Some(value) => if bounds.0 <= value <= bounds.1 {
                        CommandsView::SetOption { options_type: OptionsView::Spin { name, value: value as u16 } }
                    } else {
                        CommandsView::IncorrectFormat
                    },
                    None => CommandsView::IncorrectFormat,
                }
            }
        } else if is_button(name) {
            CommandsView::SetOption { options_type: OptionsView::Button { name } }
        } else {
            CommandsView::IncorrectFormat
        }
    }
}

/// What a line says: its first word names the command.
pub open spec fn command_of(message: Seq<u8>) -> CommandsView {
    let tokens = fields(message);
    if tokens.len() == 0 {
        CommandsView::Unknown(message)
    } else if tokens[0] == "uci".spec_bytes() {
        CommandsView::Uci
    } else if tokens[0] == "isready".spec_bytes() {
        CommandsView::IsReady
    } else if tokens[0] == "ucinewgame".spec_bytes() {
        CommandsView::UciNewGame
    } else if tokens[0] == "stop".spec_bytes() {
        CommandsView::Stop
    } else if tokens[0] == "quit".spec_bytes() {
        CommandsView::Quit
    } else if tokens[0] == "help".spec_bytes() {
        CommandsView::Help
    } else if tokens[0] == "setoption".spec_bytes() {
        set_option_command(tokens)
    } else if tokens[0] == "position".spec_bytes() {
        position_command(tokens)
    } else if tokens[0] == "go".spec_bytes() {
        go_command(tokens)
    } else if tokens[0] == "perft".spec_bytes() {
        perft_command(tokens)
    } else {
        CommandsView::Unknown(tokens[0])
    }
}

/// The words of a line, each as a text of its own.
pub fn split_words(text: &[u8]) -> (r: Vec<Vec<u8>>)
    ensures
        views(r@) == fields(text@),
{
    let parts = split_fields(text);
    let mut r: Vec<Vec<u8>> = Vec::new();
    let mut i: usize = 0;
    while i < parts.len()
        invariant
            i <= parts.len(),
            r.len() == i,
            parts@.len() == fields(text@).len(),
            forall|k: int|
                0 <= k < parts@.len() ==> (#[trigger] parts@[k]).0 < parts@[k].1 <= text@.len() && text@.subrange(
                    parts@[k].0 as int,
                    parts@[k].1 as int,
                ) == fields(text@)[k],
            forall|k: int| 0 <= k < i ==> (#[trigger] r@[k])@ == fields(text@)[k],
        decreases parts.len() - i,
    {
        let part = parts[i];
        assert(parts@[i as int].0 < parts@[i as int].1);
        r.push(slice_to_vec(slice_subrange(text, part.0, part.1)));
        i += 1;
    }
    assert(views(r@) =~= fields(text@));
    r
}

impl UCIParser {
    /// The words from the place `start_index` up to the place `end`, with one blank between each two.
    fn collect_until_end_or_breakpoint(start_index: usize, split_messages: &Vec<Vec<u8>>, end: usize) -> (r: Vec<
        u8,
    >)
        requires
            start_index <= end <= split_messages@.len(),
        ensures
            r@ == joined(views(split_messages@), start_index as int, end as int),
    {
        let mut final_str: Vec<u8> = Vec::new();
        let mut i: usize = start_index;
        while i < end
            invariant
                start_index <= i <= end <= split_messages@.len(),
                final_str@ == joined(views(split_messages@), start_index as int, i as int),
            decreases end - i,
        {
            if i > start_index {
                final_str.push(32);
            }
            let section = &split_messages[i];
            let ghost before = final_str@;
            let mut k: usize = 0;
            while k < section.len()
                invariant
                    k <= section.len(),
                    final_str@ == before + section@.subrange(0, k as int),
                decreases section.len() - k,
            {
                final_str.push(section[k]);
                assert(section@.subrange(0, k + 1) =~= section@.subrange(0, k as int).push(section@[k as int]));
                k += 1;
            }
            proof {
                assert(section@.subrange(0, section@.len() as int) =~= section@);
                assert(views(split_messages@)[i as int] == section@);
                if i == start_index {
                    assert(before =~= Seq::<u8>::empty());
                    assert(final_str@ =~= section@);
                } else {
                    assert(final_str@ =~= joined(views(split_messages@), start_index as int, i as int) + seq![
                        32u8,
                    ] + section@);
                }
            }
            i += 1;
        }
        final_str
    }

    /// The first place from `from` on that holds `word`.
    fn position_of(split_messages: &Vec<Vec<u8>>, word: &[u8], from: usize) -> (r: usize)
        requires
            from <= split_messages@.len(),
        ensures
            r == find_word(views(split_messages@), word@, from as int),
            from <= r <= split_messages@.len(),
    {
        let mut i: usize = from;
        while i < split_messages.len()
            invariant
                from <= i <= split_messages@.len(),
                find_word(views(split_messages@), word@, i as int) == find_word(
                    views(split_messages@),
                    word@,
                    from as int,
                ),
            decreases split_messages.len() - i,
        {
            assert(views(split_messages@)[i as int] == split_messages@[i as int]@);
            if same_bytes(split_messages[i].as_slice(), word) {
                return i;
            }
            i += 1;
        }
        i
    }

    fn parse_set_option(split_message: &Vec<Vec<u8>>) -> (r: Commands)
        ensures
            r@ == set_option_command(views(split_message@)),
    {
        let ghost tokens = views(split_message@);
        if split_message.len() < 2 {
            return Commands::IncorrectFormat;
        }
        assert(tokens[1] == split_message@[1]@);
        if !same_bytes(split_message[1].as_slice(), "name".as_bytes()) {
            return Commands::IncorrectFormat;
        }
        let end: usize = Self::position_of(split_message, "value".as_bytes(), 2);
        if end <= 2 {
            return Commands::IncorrectFormat;
        }
        let option_name = Self::collect_until_end_or_breakpoint(2, split_message, end);
        if let Some(bounds) = spin_option(option_name.as_slice()) {
            if end >= split_message.len() - 1 {
                return Commands::IncorrectFormat;
            }
            let value_text = Self::collect_until_end_or_breakpoint(end + 1, split_message, split_message.len());
            return match parse_number(value_text.as_slice(), 65535) {
                Some(value) => {
                    if bounds.0 as u32 <= value && value <= bounds.1 as u32 {
                        Commands::SetOption {
                            options_type: OptionsType::Spin { name: option_name, value: value as u16 },
                        }
                    } else {
                        Commands::IncorrectFormat
                    }
                },
                None => Commands::IncorrectFormat,
            };
        }
        if button_option(option_name.as_slice()) {
            return Commands::SetOption { options_type: OptionsType::Button { name: option_name } };
        }
        Commands::IncorrectFormat
    }

    fn parse_position(split_message: &Vec<Vec<u8>>) -> (r: Commands)
        ensures
            r@ == position_command(views(split_message@)),
    {
        let ghost tokens = views(split_message@);
        if split_message.len() < 2 {
            return Commands::IncorrectFormat;
        }
        assert(tokens[1] == split_message@[1]@);
        let fen: Vec<u8>;
        if same_bytes(split_message[1].as_slice(), "startpos".as_bytes()) {
            fen = slice_to_vec(START_POS.as_bytes());
        } else if same_bytes(split_message[1].as_slice(), "fen".as_bytes()) {
            let end: usize = Self::position_of(split_message, "moves".as_bytes(), 2);
            if end <= 2 {
                return Commands::IncorrectFormat;
            }
            fen = Self::collect_until_end_or_breakpoint(2, split_message, end);
        } else {
            return Commands::IncorrectFormat;
        }
        let moves_position: usize = Self::position_of(split_message, "moves".as_bytes(), 0);
        if moves_position >= split_message.len() - 1 {
            return Commands::Position { fen, moves: None };
        }
        let mut moves: Vec<Vec<u8>> = Vec::new();
        let mut i: usize = moves_position + 1;
        while i < split_message.len()
            invariant
                moves_position + 1 <= i <= split_message@.len(),
                moves@.len() == i - (moves_position + 1),
                forall|k: int| 0 <= k < moves@.len() ==> (#[trigger] moves@[k])@ == split_message@[moves_position + 1 + k]@,
            decreases split_message.len() - i,
        {
            moves.push(slice_to_vec(split_message[i].as_slice()));
            i += 1;
        }
        assert(views(moves@) =~= tokens.subrange(moves_position + 1, tokens.len() as int));
        Commands::Position { fen, moves: Some(moves) }
    }

    fn message_is_u32(message: &[u8]) -> (r: Result<(), ()>)
        ensures
            r.is_ok() == number(message@, u32::MAX as int).is_some(),
    {
        match parse_u32(message) {
            Some(_) => Ok(()),
            None => Err(()),
        }
    }

    fn parse_go(split_message: &Vec<Vec<u8>>) -> (r: Commands)
        requires
            split_message@.len() >= 1,
        ensures
            r@ == go_command(views(split_message@)),
    {
        let ghost tokens = views(split_message@);
        let mut times = GoParams {
            move_time: None,
            wtime: None,
            btime: None,
            winc: None,
            binc: None,
            moves_to_go: None,
        };
        let mut i: usize = 1;
        while i < split_message.len() - 1
            invariant
                1 <= i,
                split_message@.len() >= 1,
                tokens == views(split_message@),
                go_from(tokens, i as int, times) == go_from(
                    tokens,
                    1,
                    GoParams {
                        move_time: None,
                        wtime: None,
                        btime: None,
                        winc: None,
                        binc: None,
                        moves_to_go: None,
                    },
                ),
            decreases split_message.len() - i,
        {
            let message_type = split_message[i].as_slice();
            let message_value = split_message[i + 1].as_slice();
            assert(tokens[i as int] == message_type@);
            assert(tokens[i + 1] == message_value@);
            let value: u32 = match parse_u32(message_value) {
                Some(value) => value,
                None => {
                    return Commands::IncorrectFormat;
                },
            };
            if same_bytes(message_type, "movetime".as_bytes()) {
                times.move_time = Some(value);
            } else if same_bytes(message_type, "wtime".as_bytes()) {
                times.wtime = Some(value);
            } else if same_bytes(message_type, "btime".as_bytes()) {
                times.btime = Some(value);
            } else if same_bytes(message_type, "winc".as_bytes()) {
                times.winc = Some(value);
            } else if same_bytes(message_type, "binc".as_bytes()) {
                times.binc = Some(value);
            } else if same_bytes(message_type, "movestogo".as_bytes()) {
                times.moves_to_go = Some(value);
            } else {
                return Commands::IncorrectFormat;
            }
            i += 2;
        }
        Commands::Go {
            move_time: times.move_time,
            wtime: times.wtime,
            btime: times.btime,
            winc: times.winc,
            binc: times.binc,
            moves_to_go: times.moves_to_go,
        }
    }

    pub fn parse_perft(split_message: &Vec<Vec<u8>>) -> (r: Commands)
        ensures
            r@ == perft_command(views(split_message@)),
    {
        if split_message.len() < 2 {
            return Commands::IncorrectFormat;
        }
        let depth = split_message[1].as_slice();
        assert(views(split_message@)[1] == depth@);
        if Self::message_is_u32(depth).is_err() {
            return Commands::IncorrectFormat;
        }
        match parse_u32(depth) {
            Some(depth) => Commands::Perft { depth },
            None => Commands::IncorrectFormat,
        }
    }

    /// Reads one line of the protocol.
    pub fn parse(message: &str) -> (r: Commands)
        ensures
            r@ == command_of(message.spec_bytes()),
    {
        let text = message.as_bytes();
        let split_message = split_words(text);
        if split_message.len() == 0 {
            return Commands::Unknown(slice_to_vec(text));
        }
        let initial_command = split_message[0].as_slice();
        assert(views(split_message@)[0] == initial_command@);
        if same_bytes(initial_command, "uci".as_bytes()) {
            Commands::Uci
        } else if same_bytes(initial_command, "isready".as_bytes()) {
            Commands::IsReady
        } else if same_bytes(initial_command, "ucinewgame".as_bytes()) {
            Commands::UciNewGame
        } else if same_bytes(initial_command, "stop".as_bytes()) {
            Commands::Stop
        } else if same_bytes(initial_command, "quit".as_bytes()) {
            Commands::Quit
        } else if same_bytes(initial_command, "help".as_bytes()) {
            Commands::Help
        } else if same_bytes(initial_command, "setoption".as_bytes()) {
            Self::parse_set_option(&split_message)
        } else if same_bytes(initial_command, "position".as_bytes()) {
            Self::parse_position(&split_message)
        } else if same_bytes(initial_command, "go".as_bytes()) {
            Self::parse_go(&split_message)
        } else if same_bytes(initial_command, "perft".as_bytes()) {
            Self::parse_perft(&split_message)
        } else {
            Commands::Unknown(slice_to_vec(initial_command))
        }
    }
}

} // verus!
