//! The commands of the protocol. Text is kept as bytes.

use vstd::prelude::*;

verus! {

pub enum Commands {
    Uci,
    IsReady,
    UciNewGame,
    Position { fen: Vec<u8>, moves: Option<Vec<Vec<u8>>> },
    Go {
        move_time: Option<u32>,
        wtime: Option<u32>,
        btime: Option<u32>,
        winc: Option<u32>,
        binc: Option<u32>,
        moves_to_go: Option<u32>,
    },
    SetOption { options_type: OptionsType },
    Stop,
    Quit,
    Help,
    Perft { depth: u32 },
    Unknown(Vec<u8>),
    IncorrectFormat,
}

pub enum OptionsType {
    Spin { name: Vec<u8>, value: u16 },
    Button { name: Vec<u8> },
}

/// What a command says.
pub enum CommandsView {
    Uci,
    IsReady,
    UciNewGame,
    Position { fen: Seq<u8>, moves: Option<Seq<Seq<u8>>> },
    Go {
        move_time: Option<u32>,
        wtime: Option<u32>,
        btime: Option<u32>,
        winc: Option<u32>,
        binc: Option<u32>,
        moves_to_go: Option<u32>,
    },
    SetOption { options_type: OptionsView },
    Stop,
    Quit,
    Help,
    Perft { depth: u32 },
    Unknown(Seq<u8>),
    IncorrectFormat,
}

pub enum OptionsView {
    Spin { name: Seq<u8>, value: u16 },
    Button { name: Seq<u8> },
}

/// The texts that a list of texts holds.
pub open spec fn views(tokens: Seq<Vec<u8>>) -> Seq<Seq<u8>> {
    Seq::new(tokens.len(), |i: int| tokens[i]@)
}

impl View for OptionsType {
    type V = OptionsView;

    open spec fn view(&self) -> OptionsView {
        match self {
            OptionsType::Spin { name, value } => OptionsView::Spin { name: name@, value: *value },
            OptionsType::Button { name } => OptionsView::Button { name: name@ },
        }
    }
}

impl View for Commands {
    type V = CommandsView;

    open spec fn view(&self) -> CommandsView {
        match self {
            Commands::Uci => CommandsView::Uci,
            Commands::IsReady => CommandsView::IsReady,
            Commands::UciNewGame => CommandsView::UciNewGame,
            Commands::Position { fen, moves } => CommandsView::Position {
                fen: fen@,
                moves: match moves {
                    Some(list) => Some(views(list@)),
                    None => None,
                },
            },
            Commands::Go { move_time, wtime, btime, winc, binc, moves_to_go } => CommandsView::Go {
                move_time: *move_time,
                wtime: *wtime,
                btime: *btime,
                winc: *winc,
                binc: *binc,
                moves_to_go: *moves_to_go,
            },
            Commands::SetOption { options_type } => CommandsView::SetOption { options_type: options_type@ },
            Commands::Stop => CommandsView::Stop,
            Commands::Quit => CommandsView::Quit,
            Commands::Help => CommandsView::Help,
            Commands::Perft { depth } => CommandsView::Perft { depth: *depth },
            Commands::Unknown(text) => CommandsView::Unknown(text@),
            Commands::IncorrectFormat => CommandsView::IncorrectFormat,
        }
    }
}

} // verus!
