//! Keyboard shortcuts: the command table, user overrides and conflicts.
//!
//! Each command has an identifier, default keys and a context: block-editor
//! commands and global commands are bound separately, so keys only clash
//! within one context. A user configuration maps identifiers to keys. Keys
//! are parsed by the UI toolkit before they reach this module, in the
//! toolkit's canonical spelling; a key that did not parse, or that the input
//! method is still composing, arrives as `None`.
//!
//! An override is kept only when all its keys parse, it is not empty and it
//! differs from the defaults. Overrides that clash with another command's
//! keys in the same context fall back to their defaults, repeatedly, until
//! no override clashes.
use vstd::prelude::*;

use crate::recent::strings_view;

verus! {

broadcast use vstd::string::group_string_axioms;

/// Number of commands in the table.
pub const SHORTCUT_COUNT: usize = 31;

/// The menu group a command is listed under.
#[derive(Clone, Copy, PartialEq, Eq, Structural, Debug)]
pub enum ShortcutCategory {
    File,
    Edit,
    Navigation,
    Formatting,
    Block,
    Other,
}

/// A command that a keyboard shortcut can trigger.
#[derive(Clone, Copy, PartialEq, Eq, Structural, Debug)]
pub enum ShortcutCommand {
    Newline,
    DeleteBack,
    Delete,
    FocusPrev,
    FocusNext,
    MoveLeft,
    MoveRight,
    Home,
    End,
    SelectLeft,
    SelectRight,
    SelectHome,
    SelectEnd,
    SelectAll,
    Copy,
    Cut,
    Paste,
    Undo,
    BoldSelection,
    ItalicSelection,
    UnderlineSelection,
    CodeSelection,
    IndentBlock,
    OutdentBlock,
    ExitCodeBlock,
    SaveDocument,
    SaveDocumentAs,
    NewWindow,
    OpenFile,
    QuitApplication,
    DismissTransientUi,
}

/// Position of a command in the definition table.
pub open spec fn spec_command_index(c: ShortcutCommand) -> nat {
    match c {
        ShortcutCommand::Newline => 0,
        ShortcutCommand::DeleteBack => 1,
        ShortcutCommand::Delete => 2,
        ShortcutCommand::FocusPrev => 3,
        ShortcutCommand::FocusNext => 4,
        ShortcutCommand::MoveLeft => 5,
        ShortcutCommand::MoveRight => 6,
        ShortcutCommand::Home => 7,
        ShortcutCommand::End => 8,
        ShortcutCommand::SelectLeft => 9,
        ShortcutCommand::SelectRight => 10,
        ShortcutCommand::SelectHome => 11,
        ShortcutCommand::SelectEnd => 12,
        ShortcutCommand::SelectAll => 13,
        ShortcutCommand::Copy => 14,
        ShortcutCommand::Cut => 15,
        ShortcutCommand::Paste => 16,
        ShortcutCommand::Undo => 17,
        ShortcutCommand::BoldSelection => 18,
        ShortcutCommand::ItalicSelection => 19,
        ShortcutCommand::UnderlineSelection => 20,
        ShortcutCommand::CodeSelection => 21,
        ShortcutCommand::IndentBlock => 22,
        ShortcutCommand::OutdentBlock => 23,
        ShortcutCommand::ExitCodeBlock => 24,
        ShortcutCommand::SaveDocument => 25,
        ShortcutCommand::SaveDocumentAs => 26,
        ShortcutCommand::NewWindow => 27,
        ShortcutCommand::OpenFile => 28,
        ShortcutCommand::QuitApplication => 29,
        ShortcutCommand::DismissTransientUi => 30,
    }
}

/// The command at position `i` of the definition table.
pub open spec fn spec_command_at(i: int) -> ShortcutCommand {
    if i == 0 {
        ShortcutCommand::Newline
    } else if i == 1 {
        ShortcutCommand::DeleteBack
    } else if i == 2 {
        ShortcutCommand::Delete
    } else if i == 3 {
        ShortcutCommand::FocusPrev
    } else if i == 4 {
        ShortcutCommand::FocusNext
    } else if i == 5 {
        ShortcutCommand::MoveLeft
    } else if i == 6 {
        ShortcutCommand::MoveRight
    } else if i == 7 {
        ShortcutCommand::Home
    } else if i == 8 {
        ShortcutCommand::End
    } else if i == 9 {
        ShortcutCommand::SelectLeft
    } else if i == 10 {
        ShortcutCommand::SelectRight
    } else if i == 11 {
        ShortcutCommand::SelectHome
    } else if i == 12 {
        ShortcutCommand::SelectEnd
    } else if i == 13 {
        ShortcutCommand::SelectAll
    } else if i == 14 {
        ShortcutCommand::Copy
    } else if i == 15 {
        ShortcutCommand::Cut
    } else if i == 16 {
        ShortcutCommand::Paste
    } else if i == 17 {
        ShortcutCommand::Undo
    } else if i == 18 {
        ShortcutCommand::BoldSelection
    } else if i == 19 {
        ShortcutCommand::ItalicSelection
    } else if i == 20 {
        ShortcutCommand::UnderlineSelection
    } else if i == 21 {
        ShortcutCommand::CodeSelection
    } else if i == 22 {
        ShortcutCommand::IndentBlock
    } else if i == 23 {
        ShortcutCommand::OutdentBlock
    } else if i == 24 {
        ShortcutCommand::ExitCodeBlock
    } else if i == 25 {
        ShortcutCommand::SaveDocument
    } else if i == 26 {
        ShortcutCommand::SaveDocumentAs
    } else if i == 27 {
        ShortcutCommand::NewWindow
    } else if i == 28 {
        ShortcutCommand::OpenFile
    } else if i == 29 {
        ShortcutCommand::QuitApplication
    } else {
        ShortcutCommand::DismissTransientUi
    }
}

/// The identifier of a command in configuration files.
pub open spec fn spec_shortcut_id(c: ShortcutCommand) -> Seq<char> {
    match c {
        ShortcutCommand::Newline => "newline"@,
        ShortcutCommand::DeleteBack => "delete_back"@,
        ShortcutCommand::Delete => "delete"@,
        ShortcutCommand::FocusPrev => "focus_prev"@,
        ShortcutCommand::FocusNext => "focus_next"@,
        ShortcutCommand::MoveLeft => "move_left"@,
        ShortcutCommand::MoveRight => "move_right"@,
        ShortcutCommand::Home => "home"@,
        ShortcutCommand::End => "end"@,
        ShortcutCommand::SelectLeft => "select_left"@,
        ShortcutCommand::SelectRight => "select_right"@,
        ShortcutCommand::SelectHome => "select_home"@,
        ShortcutCommand::SelectEnd => "select_end"@,
        ShortcutCommand::SelectAll => "select_all"@,
        ShortcutCommand::Copy => "copy"@,
        ShortcutCommand::Cut => "cut"@,
        ShortcutCommand::Paste => "paste"@,
        ShortcutCommand::Undo => "undo"@,
        ShortcutCommand::BoldSelection => "bold_selection"@,
        ShortcutCommand::ItalicSelection => "italic_selection"@,
        ShortcutCommand::UnderlineSelection => "underline_selection"@,
        ShortcutCommand::CodeSelection => "code_selection"@,
        ShortcutCommand::IndentBlock => "indent_block"@,
        ShortcutCommand::OutdentBlock => "outdent_block"@,
        ShortcutCommand::ExitCodeBlock => "exit_code_block"@,
        ShortcutCommand::SaveDocument => "save_document"@,
        ShortcutCommand::SaveDocumentAs => "save_document_as"@,
        ShortcutCommand::NewWindow => "new_window"@,
        ShortcutCommand::OpenFile => "open_file"@,
        ShortcutCommand::QuitApplication => "quit_application"@,
        ShortcutCommand::DismissTransientUi => "dismiss_transient_ui"@,
    }
}

/// The length, first and last character of a command's identifier.
pub open spec fn id_fingerprint(c: ShortcutCommand) -> (nat, char, char) {
    match c {
        ShortcutCommand::Newline => (7nat, 'n', 'e'),
        ShortcutCommand::DeleteBack => (11nat, 'd', 'k'),
        ShortcutCommand::Delete => (6nat, 'd', 'e'),
        ShortcutCommand::FocusPrev => (10nat, 'f', 'v'),
        ShortcutCommand::FocusNext => (10nat, 'f', 't'),
        ShortcutCommand::MoveLeft => (9nat, 'm', 't'),
        ShortcutCommand::MoveRight => (10nat, 'm', 't'),
        ShortcutCommand::Home => (4nat, 'h', 'e'),
        ShortcutCommand::End => (3nat, 'e', 'd'),
        ShortcutCommand::SelectLeft => (11nat, 's', 't'),
        ShortcutCommand::SelectRight => (12nat, 's', 't'),
        ShortcutCommand::SelectHome => (11nat, 's', 'e'),
        ShortcutCommand::SelectEnd => (10nat, 's', 'd'),
        ShortcutCommand::SelectAll => (10nat, 's', 'l'),
        ShortcutCommand::Copy => (4nat, 'c', 'y'),
        ShortcutCommand::Cut => (3nat, 'c', 't'),
        ShortcutCommand::Paste => (5nat, 'p', 'e'),
        ShortcutCommand::Undo => (4nat, 'u', 'o'),
        ShortcutCommand::BoldSelection => (14nat, 'b', 'n'),
        ShortcutCommand::ItalicSelection => (16nat, 'i', 'n'),
        ShortcutCommand::UnderlineSelection => (19nat, 'u', 'n'),
        ShortcutCommand::CodeSelection => (14nat, 'c', 'n'),
        ShortcutCommand::IndentBlock => (12nat, 'i', 'k'),
        ShortcutCommand::OutdentBlock => (13nat, 'o', 'k'),
        ShortcutCommand::ExitCodeBlock => (15nat, 'e', 'k'),
        ShortcutCommand::SaveDocument => (13nat, 's', 't'),
        ShortcutCommand::SaveDocumentAs => (16nat, 's', 's'),
        ShortcutCommand::NewWindow => (10nat, 'n', 'w'),
        ShortcutCommand::OpenFile => (9nat, 'o', 'e'),
        ShortcutCommand::QuitApplication => (16nat, 'q', 'n'),
        ShortcutCommand::DismissTransientUi => (20nat, 'd', 'i'),
    }
}

/// The command whose identifier has fingerprint `fp`.
pub open spec fn command_of_fingerprint(fp: (nat, char, char)) -> Option<ShortcutCommand> {
    if fp == (7nat, 'n', 'e') {
        Some(ShortcutCommand::Newline)
    } else if fp == (11nat, 'd', 'k') {
        Some(ShortcutCommand::DeleteBack)
    } else if fp == (6nat, 'd', 'e') {
        Some(ShortcutCommand::Delete)
    } else if fp == (10nat, 'f', 'v') {
        Some(ShortcutCommand::FocusPrev)
    } else if fp == (10nat, 'f', 't') {
        Some(ShortcutCommand::FocusNext)
    } else if fp == (9nat, 'm', 't') {
        Some(ShortcutCommand::MoveLeft)
    } else if fp == (10nat, 'm', 't') {
        Some(ShortcutCommand::MoveRight)
    } else if fp == (4nat, 'h', 'e') {
        Some(ShortcutCommand::Home)
    } else if fp == (3nat, 'e', 'd') {
        Some(ShortcutCommand::End)
    } else if fp == (11nat, 's', 't') {
        Some(ShortcutCommand::SelectLeft)
    } else if fp == (12nat, 's', 't') {
        Some(ShortcutCommand::SelectRight)
    } else if fp == (11nat, 's', 'e') {
        Some(ShortcutCommand::SelectHome)
    } else if fp == (10nat, 's', 'd') {
        Some(ShortcutCommand::SelectEnd)
    } else if fp == (10nat, 's', 'l') {
        Some(ShortcutCommand::SelectAll)
    } else if fp == (4nat, 'c', 'y') {
        Some(ShortcutCommand::Copy)
    } else if fp == (3nat, 'c', 't') {
        Some(ShortcutCommand::Cut)
    } else if fp == (5nat, 'p', 'e') {
        Some(ShortcutCommand::Paste)
    } else if fp == (4nat, 'u', 'o') {
        Some(ShortcutCommand::Undo)
    } else if fp == (14nat, 'b', 'n') {
        Some(ShortcutCommand::BoldSelection)
    } else if fp == (16nat, 'i', 'n') {
        Some(ShortcutCommand::ItalicSelection)
    } else if fp == (19nat, 'u', 'n') {
        Some(ShortcutCommand::UnderlineSelection)
    } else if fp == (14nat, 'c', 'n') {
        Some(ShortcutCommand::CodeSelection)
    } else if fp == (12nat, 'i', 'k') {
        Some(ShortcutCommand::IndentBlock)
    } else if fp == (13nat, 'o', 'k') {
        Some(ShortcutCommand::OutdentBlock)
    } else if fp == (15nat, 'e', 'k') {
        Some(ShortcutCommand::ExitCodeBlock)
    } else if fp == (13nat, 's', 't') {
        Some(ShortcutCommand::SaveDocument)
    } else if fp == (16nat, 's', 's') {
        Some(ShortcutCommand::SaveDocumentAs)
    } else if fp == (10nat, 'n', 'w') {
        Some(ShortcutCommand::NewWindow)
    } else if fp == (9nat, 'o', 'e') {
        Some(ShortcutCommand::OpenFile)
    } else if fp == (16nat, 'q', 'n') {
        Some(ShortcutCommand::QuitApplication)
    } else if fp == (20nat, 'd', 'i') {
        Some(ShortcutCommand::DismissTransientUi)
    } else {
        None
    }
}

proof fn lemma_id_fingerprint(c: ShortcutCommand)
    ensures
        spec_shortcut_id(c).len() == id_fingerprint(c).0,
        spec_shortcut_id(c).len() > 0,
        spec_shortcut_id(c)[0] == id_fingerprint(c).1,
        spec_shortcut_id(c)[spec_shortcut_id(c).len() - 1] == id_fingerprint(c).2,
        command_of_fingerprint(id_fingerprint(c)) == Some(c),
{
    match c {
        ShortcutCommand::Newline => {
            reveal_strlit("newline");
        },
        ShortcutCommand::DeleteBack => {
            reveal_strlit("delete_back");
        },
        ShortcutCommand::Delete => {
            reveal_strlit("delete");
        },
        ShortcutCommand::FocusPrev => {
            reveal_strlit("focus_prev");
        },
        ShortcutCommand::FocusNext => {
            reveal_strlit("focus_next");
        },
        ShortcutCommand::MoveLeft => {
            reveal_strlit("move_left");
        },
        ShortcutCommand::MoveRight => {
            reveal_strlit("move_right");
        },
        ShortcutCommand::Home => {
            reveal_strlit("home");
        },
        ShortcutCommand::End => {
            reveal_strlit("end");
        },
        ShortcutCommand::SelectLeft => {
            reveal_strlit("select_left");
        },
        ShortcutCommand::SelectRight => {
            reveal_strlit("select_right");
        },
        ShortcutCommand::SelectHome => {
            reveal_strlit("select_home");
        },
        ShortcutCommand::SelectEnd => {
            reveal_strlit("select_end");
        },
        ShortcutCommand::SelectAll => {
            reveal_strlit("select_all");
        },
        ShortcutCommand::Copy => {
            reveal_strlit("copy");
        },
        ShortcutCommand::Cut => {
            reveal_strlit("cut");
        },
        ShortcutCommand::Paste => {
            reveal_strlit("paste");
        },
        ShortcutCommand::Undo => {
            reveal_strlit("undo");
        },
        ShortcutCommand::BoldSelection => {
            reveal_strlit("bold_selection");
        },
        ShortcutCommand::ItalicSelection => {
            reveal_strlit("italic_selection");
        },
        ShortcutCommand::UnderlineSelection => {
            reveal_strlit("underline_selection");
        },
        ShortcutCommand::CodeSelection => {
            reveal_strlit("code_selection");
        },
        ShortcutCommand::IndentBlock => {
            reveal_strlit("indent_block");
        },
        ShortcutCommand::OutdentBlock => {
            reveal_strlit("outdent_block");
        },
        ShortcutCommand::ExitCodeBlock => {
            reveal_strlit("exit_code_block");
        },
        ShortcutCommand::SaveDocument => {
            reveal_strlit("save_document");
        },
        ShortcutCommand::SaveDocumentAs => {
            reveal_strlit("save_document_as");
        },
        ShortcutCommand::NewWindow => {
            reveal_strlit("new_window");
        },
        ShortcutCommand::OpenFile => {
            reveal_strlit("open_file");
        },
        ShortcutCommand::QuitApplication => {
            reveal_strlit("quit_application");
        },
        ShortcutCommand::DismissTransientUi => {
            reveal_strlit("dismiss_transient_ui");
        },
    }
}

/// Different commands have different identifiers.
pub proof fn lemma_ids_distinct(a: ShortcutCommand, b: ShortcutCommand)
    requires
        a != b,
    ensures
        spec_shortcut_id(a) != spec_shortcut_id(b),
{
    lemma_id_fingerprint(a);
    lemma_id_fingerprint(b);
}

/// The keys bound to a command when the configuration does not change it.
pub open spec fn spec_default_keys(c: ShortcutCommand) -> Seq<Seq<char>> {
    match c {
        ShortcutCommand::Newline => seq!["enter"@],
        ShortcutCommand::DeleteBack => seq!["backspace"@],
        ShortcutCommand::Delete => seq!["delete"@],
        ShortcutCommand::FocusPrev => seq!["up"@],
        ShortcutCommand::FocusNext => seq!["down"@],
        ShortcutCommand::MoveLeft => seq!["left"@],
        ShortcutCommand::MoveRight => seq!["right"@],
        ShortcutCommand::Home => seq!["home"@],
        ShortcutCommand::End => seq!["end"@],
        ShortcutCommand::SelectLeft => seq!["shift-left"@],
        ShortcutCommand::SelectRight => seq!["shift-right"@],
        ShortcutCommand::SelectHome => seq!["shift-home"@],
        ShortcutCommand::SelectEnd => seq!["shift-end"@],
        ShortcutCommand::SelectAll => seq!["cmd-a"@, "ctrl-a"@],
        ShortcutCommand::Copy => seq!["cmd-c"@, "ctrl-c"@],
        ShortcutCommand::Cut => seq!["cmd-x"@, "ctrl-x"@],
        ShortcutCommand::Paste => seq!["cmd-v"@, "ctrl-v"@],
        ShortcutCommand::Undo => seq!["cmd-z"@, "ctrl-z"@],
        ShortcutCommand::BoldSelection => seq!["cmd-b"@, "ctrl-b"@],
        ShortcutCommand::ItalicSelection => seq!["cmd-i"@, "ctrl-i"@],
        ShortcutCommand::UnderlineSelection => seq!["cmd-u"@, "ctrl-u"@],
        ShortcutCommand::CodeSelection => seq!["cmd-`"@, "ctrl-`"@],
        ShortcutCommand::IndentBlock => seq!["tab"@],
        ShortcutCommand::OutdentBlock => seq!["shift-tab"@],
        ShortcutCommand::ExitCodeBlock => seq!["cmd-enter"@, "ctrl-enter"@],
        ShortcutCommand::SaveDocument => seq!["cmd-s"@, "ctrl-s"@],
        ShortcutCommand::SaveDocumentAs => seq!["cmd-shift-s"@, "ctrl-shift-s"@],
        ShortcutCommand::NewWindow => seq!["cmd-n"@, "ctrl-n"@],
        ShortcutCommand::OpenFile => seq!["cmd-o"@, "ctrl-o"@],
        ShortcutCommand::QuitApplication => seq!["cmd-q"@, "ctrl-q"@],
        ShortcutCommand::DismissTransientUi => seq!["escape"@],
    }
}

/// Whether a command is bound in the block editor rather than globally.
pub open spec fn spec_in_block_context(c: ShortcutCommand) -> bool {
    match c {
        ShortcutCommand::Newline => true,
        ShortcutCommand::DeleteBack => true,
        ShortcutCommand::Delete => true,
        ShortcutCommand::FocusPrev => true,
        ShortcutCommand::FocusNext => true,
        ShortcutCommand::MoveLeft => true,
        ShortcutCommand::MoveRight => true,
        ShortcutCommand::Home => true,
        ShortcutCommand::End => true,
        ShortcutCommand::SelectLeft => true,
        ShortcutCommand::SelectRight => true,
        ShortcutCommand::SelectHome => true,
        ShortcutCommand::SelectEnd => true,
        ShortcutCommand::SelectAll => true,
        ShortcutCommand::Copy => true,
        ShortcutCommand::Cut => true,
        ShortcutCommand::Paste => true,
        ShortcutCommand::Undo => true,
        ShortcutCommand::BoldSelection => true,
        ShortcutCommand::ItalicSelection => true,
        ShortcutCommand::UnderlineSelection => true,
        ShortcutCommand::CodeSelection => true,
        ShortcutCommand::IndentBlock => true,
        ShortcutCommand::OutdentBlock => true,
        ShortcutCommand::ExitCodeBlock => true,
        ShortcutCommand::SaveDocument => false,
        ShortcutCommand::SaveDocumentAs => false,
        ShortcutCommand::NewWindow => false,
        ShortcutCommand::OpenFile => false,
        ShortcutCommand::QuitApplication => false,
        ShortcutCommand::DismissTransientUi => false,
    }
}

/// The menu group a command is listed under.
pub open spec fn spec_category(c: ShortcutCommand) -> ShortcutCategory {
    match c {
        ShortcutCommand::Newline => ShortcutCategory::Block,
        ShortcutCommand::DeleteBack => ShortcutCategory::Edit,
        ShortcutCommand::Delete => ShortcutCategory::Edit,
        ShortcutCommand::FocusPrev => ShortcutCategory::Navigation,
        ShortcutCommand::FocusNext => ShortcutCategory::Navigation,
        ShortcutCommand::MoveLeft => ShortcutCategory::Navigation,
        ShortcutCommand::MoveRight => ShortcutCategory::Navigation,
        ShortcutCommand::Home => ShortcutCategory::Navigation,
        ShortcutCommand::End => ShortcutCategory::Navigation,
        ShortcutCommand::SelectLeft => ShortcutCategory::Navigation,
        ShortcutCommand::SelectRight => ShortcutCategory::Navigation,
        ShortcutCommand::SelectHome => ShortcutCategory::Navigation,
        ShortcutCommand::SelectEnd => ShortcutCategory::Navigation,
        ShortcutCommand::SelectAll => ShortcutCategory::Edit,
        ShortcutCommand::Copy => ShortcutCategory::Edit,
        ShortcutCommand::Cut => ShortcutCategory::Edit,
        ShortcutCommand::Paste => ShortcutCategory::Edit,
        ShortcutCommand::Undo => ShortcutCategory::Edit,
        ShortcutCommand::BoldSelection => ShortcutCategory::Formatting,
        ShortcutCommand::ItalicSelection => ShortcutCategory::Formatting,
        ShortcutCommand::UnderlineSelection => ShortcutCategory::Formatting,
        ShortcutCommand::CodeSelection => ShortcutCategory::Formatting,
        ShortcutCommand::IndentBlock => ShortcutCategory::Block,
        ShortcutCommand::OutdentBlock => ShortcutCategory::Block,
        ShortcutCommand::ExitCodeBlock => ShortcutCategory::Block,
        ShortcutCommand::SaveDocument => ShortcutCategory::File,
        ShortcutCommand::SaveDocumentAs => ShortcutCategory::File,
        ShortcutCommand::NewWindow => ShortcutCategory::File,
        ShortcutCommand::OpenFile => ShortcutCategory::File,
        ShortcutCommand::QuitApplication => ShortcutCategory::File,
        ShortcutCommand::DismissTransientUi => ShortcutCategory::Other,
    }
}

impl ShortcutCommand {
    /// Position in the definition table.
    pub fn index(&self) -> (r: usize)
        ensures
            r == spec_command_index(*self),
    {
        match self {
            ShortcutCommand::Newline => 0,
            ShortcutCommand::DeleteBack => 1,
            ShortcutCommand::Delete => 2,
            ShortcutCommand::FocusPrev => 3,
            ShortcutCommand::FocusNext => 4,
            ShortcutCommand::MoveLeft => 5,
            ShortcutCommand::MoveRight => 6,
            ShortcutCommand::Home => 7,
            ShortcutCommand::End => 8,
            ShortcutCommand::SelectLeft => 9,
            ShortcutCommand::SelectRight => 10,
            ShortcutCommand::SelectHome => 11,
            ShortcutCommand::SelectEnd => 12,
            ShortcutCommand::SelectAll => 13,
            ShortcutCommand::Copy => 14,
            ShortcutCommand::Cut => 15,
            ShortcutCommand::Paste => 16,
            ShortcutCommand::Undo => 17,
            ShortcutCommand::BoldSelection => 18,
            ShortcutCommand::ItalicSelection => 19,
            ShortcutCommand::UnderlineSelection => 20,
            ShortcutCommand::CodeSelection => 21,
            ShortcutCommand::IndentBlock => 22,
            ShortcutCommand::OutdentBlock => 23,
            ShortcutCommand::ExitCodeBlock => 24,
            ShortcutCommand::SaveDocument => 25,
            ShortcutCommand::SaveDocumentAs => 26,
            ShortcutCommand::NewWindow => 27,
            ShortcutCommand::OpenFile => 28,
            ShortcutCommand::QuitApplication => 29,
            ShortcutCommand::DismissTransientUi => 30,
        }
    }

    /// The command at position `i` of the definition table.
    pub fn at(i: usize) -> (r: ShortcutCommand)
        requires
            i < SHORTCUT_COUNT,
        ensures
            r == spec_command_at(i as int),
            spec_command_index(r) == i,
    {
        if i == 0 {
            ShortcutCommand::Newline
        } else if i == 1 {
            ShortcutCommand::DeleteBack
        } else if i == 2 {
            ShortcutCommand::Delete
        } else if i == 3 {
            ShortcutCommand::FocusPrev
        } else if i == 4 {
            ShortcutCommand::FocusNext
        } else if i == 5 {
            ShortcutCommand::MoveLeft
        } else if i == 6 {
            ShortcutCommand::MoveRight
        } else if i == 7 {
            ShortcutCommand::Home
        } else if i == 8 {
            ShortcutCommand::End
        } else if i == 9 {
            ShortcutCommand::SelectLeft
        } else if i == 10 {
            ShortcutCommand::SelectRight
        } else if i == 11 {
            ShortcutCommand::SelectHome
        } else if i == 12 {
            ShortcutCommand::SelectEnd
        } else if i == 13 {
            ShortcutCommand::SelectAll
        } else if i == 14 {
            ShortcutCommand::Copy
        } else if i == 15 {
            ShortcutCommand::Cut
        } else if i == 16 {
            ShortcutCommand::Paste
        } else if i == 17 {
            ShortcutCommand::Undo
        } else if i == 18 {
            ShortcutCommand::BoldSelection
        } else if i == 19 {
            ShortcutCommand::ItalicSelection
        } else if i == 20 {
            ShortcutCommand::UnderlineSelection
        } else if i == 21 {
            ShortcutCommand::CodeSelection
        } else if i == 22 {
            ShortcutCommand::IndentBlock
        } else if i == 23 {
            ShortcutCommand::OutdentBlock
        } else if i == 24 {
            ShortcutCommand::ExitCodeBlock
        } else if i == 25 {
            ShortcutCommand::SaveDocument
        } else if i == 26 {
            ShortcutCommand::SaveDocumentAs
        } else if i == 27 {
            ShortcutCommand::NewWindow
        } else if i == 28 {
            ShortcutCommand::OpenFile
        } else if i == 29 {
            ShortcutCommand::QuitApplication
        } else {
            ShortcutCommand::DismissTransientUi
        }
    }

    /// The identifier used in configuration files.
    pub fn id(&self) -> (r: &'static str)
        ensures
            r@ == spec_shortcut_id(*self),
    {
        match self {
            ShortcutCommand::Newline => "newline",
            ShortcutCommand::DeleteBack => "delete_back",
            ShortcutCommand::Delete => "delete",
            ShortcutCommand::FocusPrev => "focus_prev",
            ShortcutCommand::FocusNext => "focus_next",
            ShortcutCommand::MoveLeft => "move_left",
            ShortcutCommand::MoveRight => "move_right",
            ShortcutCommand::Home => "home",
            ShortcutCommand::End => "end",
            ShortcutCommand::SelectLeft => "select_left",
            ShortcutCommand::SelectRight => "select_right",
            ShortcutCommand::SelectHome => "select_home",
            ShortcutCommand::SelectEnd => "select_end",
            ShortcutCommand::SelectAll => "select_all",
            ShortcutCommand::Copy => "copy",
            ShortcutCommand::Cut => "cut",
            ShortcutCommand::Paste => "paste",
            ShortcutCommand::Undo => "undo",
            ShortcutCommand::BoldSelection => "bold_selection",
            ShortcutCommand::ItalicSelection => "italic_selection",
            ShortcutCommand::UnderlineSelection => "underline_selection",
            ShortcutCommand::CodeSelection => "code_selection",
            ShortcutCommand::IndentBlock => "indent_block",
            ShortcutCommand::OutdentBlock => "outdent_block",
            ShortcutCommand::ExitCodeBlock => "exit_code_block",
            ShortcutCommand::SaveDocument => "save_document",
            ShortcutCommand::SaveDocumentAs => "save_document_as",
            ShortcutCommand::NewWindow => "new_window",
            ShortcutCommand::OpenFile => "open_file",
            ShortcutCommand::QuitApplication => "quit_application",
            ShortcutCommand::DismissTransientUi => "dismiss_transient_ui",
        }
    }

    /// The keys bound by default.
    pub fn default_keys(&self) -> (r: Vec<String>)
        ensures
            strings_view(r@) == spec_default_keys(*self),
    {
        let mut r: Vec<String> = Vec::new();
        match self {
            ShortcutCommand::Newline => {
                r.push("enter".to_owned());
            },
            ShortcutCommand::DeleteBack => {
                r.push("backspace".to_owned());
            },
            ShortcutCommand::Delete => {
                r.push("delete".to_owned());
            },
            ShortcutCommand::FocusPrev => {
                r.push("up".to_owned());
            },
            ShortcutCommand::FocusNext => {
                r.push("down".to_owned());
            },
            ShortcutCommand::MoveLeft => {
                r.push("left".to_owned());
            },
            ShortcutCommand::MoveRight => {
                r.push("right".to_owned());
            },
            ShortcutCommand::Home => {
                r.push("home".to_owned());
            },
            ShortcutCommand::End => {
                r.push("end".to_owned());
            },
            ShortcutCommand::SelectLeft => {
                r.push("shift-left".to_owned());
            },
            ShortcutCommand::SelectRight => {
                r.push("shift-right".to_owned());
            },
            ShortcutCommand::SelectHome => {
                r.push("shift-home".to_owned());
            },
            ShortcutCommand::SelectEnd => {
                r.push("shift-end".to_owned());
            },
            ShortcutCommand::SelectAll => {
                r.push("cmd-a".to_owned()); r.push("ctrl-a".to_owned());
            },
            ShortcutCommand::Copy => {
                r.push("cmd-c".to_owned()); r.push("ctrl-c".to_owned());
            },
            ShortcutCommand::Cut => {
                r.push("cmd-x".to_owned()); r.push("ctrl-x".to_owned());
            },
            ShortcutCommand::Paste => {
                r.push("cmd-v".to_owned()); r.push("ctrl-v".to_owned());
            },
            ShortcutCommand::Undo => {
                r.push("cmd-z".to_owned()); r.push("ctrl-z".to_owned());
            },
            ShortcutCommand::BoldSelection => {
                r.push("cmd-b".to_owned()); r.push("ctrl-b".to_owned());
            },
            ShortcutCommand::ItalicSelection => {
                r.push("cmd-i".to_owned()); r.push("ctrl-i".to_owned());
            },
            ShortcutCommand::UnderlineSelection => {
                r.push("cmd-u".to_owned()); r.push("ctrl-u".to_owned());
            },
            ShortcutCommand::CodeSelection => {
                r.push("cmd-`".to_owned()); r.push("ctrl-`".to_owned());
            },
            ShortcutCommand::IndentBlock => {
                r.push("tab".to_owned());
            },
            ShortcutCommand::OutdentBlock => {
                r.push("shift-tab".to_owned());
            },
            ShortcutCommand::ExitCodeBlock => {
                r.push("cmd-enter".to_owned()); r.push("ctrl-enter".to_owned());
            },
            ShortcutCommand::SaveDocument => {
                r.push("cmd-s".to_owned()); r.push("ctrl-s".to_owned());
            },
            ShortcutCommand::SaveDocumentAs => {
                r.push("cmd-shift-s".to_owned()); r.push("ctrl-shift-s".to_owned());
            },
            ShortcutCommand::NewWindow => {
                r.push("cmd-n".to_owned()); r.push("ctrl-n".to_owned());
            },
            ShortcutCommand::OpenFile => {
                r.push("cmd-o".to_owned()); r.push("ctrl-o".to_owned());
            },
            ShortcutCommand::QuitApplication => {
                r.push("cmd-q".to_owned()); r.push("ctrl-q".to_owned());
            },
            ShortcutCommand::DismissTransientUi => {
                r.push("escape".to_owned());
            },
        }
        assert(strings_view(r@) =~= spec_default_keys(*self));
        r
    }

    /// Whether the command is bound in the block editor rather than
    /// globally.
    pub fn in_block_context(&self) -> (r: bool)
        ensures
            r == spec_in_block_context(*self),
    {
        match self {
            ShortcutCommand::Newline => true,
            ShortcutCommand::DeleteBack => true,
            ShortcutCommand::Delete => true,
            ShortcutCommand::FocusPrev => true,
            ShortcutCommand::FocusNext => true,
            ShortcutCommand::MoveLeft => true,
            ShortcutCommand::MoveRight => true,
            ShortcutCommand::Home => true,
            ShortcutCommand::End => true,
            ShortcutCommand::SelectLeft => true,
            ShortcutCommand::SelectRight => true,
            ShortcutCommand::SelectHome => true,
            ShortcutCommand::SelectEnd => true,
            ShortcutCommand::SelectAll => true,
            ShortcutCommand::Copy => true,
            ShortcutCommand::Cut => true,
            ShortcutCommand::Paste => true,
            ShortcutCommand::Undo => true,
            ShortcutCommand::BoldSelection => true,
            ShortcutCommand::ItalicSelection => true,
            ShortcutCommand::UnderlineSelection => true,
            ShortcutCommand::CodeSelection => true,
            ShortcutCommand::IndentBlock => true,
            ShortcutCommand::OutdentBlock => true,
            ShortcutCommand::ExitCodeBlock => true,
            ShortcutCommand::SaveDocument => false,
            ShortcutCommand::SaveDocumentAs => false,
            ShortcutCommand::NewWindow => false,
            ShortcutCommand::OpenFile => false,
            ShortcutCommand::QuitApplication => false,
            ShortcutCommand::DismissTransientUi => false,
        }
    }

    /// The menu group the command is listed under.
    pub fn category(&self) -> (r: ShortcutCategory)
        ensures
            r == spec_category(*self),
    {
        match self {
            ShortcutCommand::Newline => ShortcutCategory::Block,
            ShortcutCommand::DeleteBack => ShortcutCategory::Edit,
            ShortcutCommand::Delete => ShortcutCategory::Edit,
            ShortcutCommand::FocusPrev => ShortcutCategory::Navigation,
            ShortcutCommand::FocusNext => ShortcutCategory::Navigation,
            ShortcutCommand::MoveLeft => ShortcutCategory::Navigation,
            ShortcutCommand::MoveRight => ShortcutCategory::Navigation,
            ShortcutCommand::Home => ShortcutCategory::Navigation,
            ShortcutCommand::End => ShortcutCategory::Navigation,
            ShortcutCommand::SelectLeft => ShortcutCategory::Navigation,
            ShortcutCommand::SelectRight => ShortcutCategory::Navigation,
            ShortcutCommand::SelectHome => ShortcutCategory::Navigation,
            ShortcutCommand::SelectEnd => ShortcutCategory::Navigation,
            ShortcutCommand::SelectAll => ShortcutCategory::Edit,
            ShortcutCommand::Copy => ShortcutCategory::Edit,
            ShortcutCommand::Cut => ShortcutCategory::Edit,
            ShortcutCommand::Paste => ShortcutCategory::Edit,
            ShortcutCommand::Undo => ShortcutCategory::Edit,
            ShortcutCommand::BoldSelection => ShortcutCategory::Formatting,
            ShortcutCommand::ItalicSelection => ShortcutCategory::Formatting,
            ShortcutCommand::UnderlineSelection => ShortcutCategory::Formatting,
            ShortcutCommand::CodeSelection => ShortcutCategory::Formatting,
            ShortcutCommand::IndentBlock => ShortcutCategory::Block,
            ShortcutCommand::OutdentBlock => ShortcutCategory::Block,
            ShortcutCommand::ExitCodeBlock => ShortcutCategory::Block,
            ShortcutCommand::SaveDocument => ShortcutCategory::File,
            ShortcutCommand::SaveDocumentAs => ShortcutCategory::File,
            ShortcutCommand::NewWindow => ShortcutCategory::File,
            ShortcutCommand::OpenFile => ShortcutCategory::File,
            ShortcutCommand::QuitApplication => ShortcutCategory::File,
            ShortcutCommand::DismissTransientUi => ShortcutCategory::Other,
        }
    }
}

pub proof fn lemma_index_at(i: int)
    requires
        0 <= i < SHORTCUT_COUNT,
    ensures
        spec_command_index(spec_command_at(i)) == i,
{
}

pub proof fn lemma_at_index(c: ShortcutCommand)
    ensures
        spec_command_index(c) < SHORTCUT_COUNT,
        spec_command_at(spec_command_index(c) as int) == c,
{
}

/// A row of the command table.
#[derive(Clone, Copy, Debug)]
pub struct ShortcutDefinition {
    pub command: ShortcutCommand,
    pub id: &'static str,
    pub category: ShortcutCategory,
    /// `Some("BlockEditor")` for block-editor commands, `None` for global
    /// ones.
    pub context: Option<&'static str>,
}

/// The row of the command table for `command`.
pub fn shortcut_definition(command: ShortcutCommand) -> (r: ShortcutDefinition)
    ensures
        r.command == command,
        r.id@ == spec_shortcut_id(command),
        r.category == spec_category(command),
        r.context is Some <==> spec_in_block_context(command),
        r.context matches Some(c) ==> c@ == "BlockEditor"@,
{
    ShortcutDefinition {
        command,
        id: command.id(),
        category: command.category(),
        context: if command.in_block_context() {
            Some("BlockEditor")
        } else {
            None
        },
    }
}

/// The whole command table, in order.
pub fn shortcut_definitions() -> (r: Vec<ShortcutDefinition>)
    ensures
        r.len() == SHORTCUT_COUNT,
        forall|i: int|
            0 <= i < SHORTCUT_COUNT ==> {
                let d = #[trigger] r@[i];
                &&& d.command == spec_command_at(i)
                &&& d.id@ == spec_shortcut_id(d.command)
                &&& d.category == spec_category(d.command)
                &&& (d.context is Some <==> spec_in_block_context(d.command))
            },
{
    let mut r: Vec<ShortcutDefinition> = Vec::new();
    let mut i: usize = 0;
    while i < SHORTCUT_COUNT
        invariant
            i <= SHORTCUT_COUNT,
            r.len() == i,
            forall|j: int|
                0 <= j < i ==> {
                    let d = #[trigger] r@[j];
                    &&& d.command == spec_command_at(j)
                    &&& d.id@ == spec_shortcut_id(d.command)
                    &&& d.category == spec_category(d.command)
                    &&& (d.context is Some <==> spec_in_block_context(d.command))
                },
        decreases SHORTCUT_COUNT - i,
    {
        r.push(shortcut_definition(ShortcutCommand::at(i)));
        i += 1;
    }
    r
}

// ---------------------------------------------------------------------------
// Normalizing one list of keys
// ---------------------------------------------------------------------------
/// `s` without repeats, each key kept where it first occurs.
pub open spec fn dedup(s: Seq<Seq<char>>) -> Seq<Seq<char>>
    decreases s.len(),
{
    if s.len() == 0 {
        Seq::empty()
    } else {
        let d = dedup(s.drop_last());
        if d.contains(s.last()) {
            d
        } else {
            d.push(s.last())
        }
    }
}

/// Every key parsed.
pub open spec fn all_parsed(keys: Seq<Option<Seq<char>>>) -> bool {
    forall|i: int| 0 <= i < keys.len() ==> (#[trigger] keys[i]) is Some
}

/// The parsed keys.
pub open spec fn parsed_keys(keys: Seq<Option<Seq<char>>>) -> Seq<Seq<char>> {
    keys.map_values(|k: Option<Seq<char>>| k.unwrap())
}

/// A user's keys for one command: `None` when a key did not parse or when
/// no key is left, otherwise the keys without repeats.
pub open spec fn spec_normalize_keys(keys: Seq<Option<Seq<char>>>) -> Option<Seq<Seq<char>>> {
    if !all_parsed(keys) || dedup(parsed_keys(keys)).len() == 0 {
        None
    } else {
        Some(dedup(parsed_keys(keys)))
    }
}

pub open spec fn opt_strings_view(v: Seq<Option<String>>) -> Seq<Option<Seq<char>>> {
    v.map_values(
        |k: Option<String>|
            match k {
                Some(s) => Some(s@),
                None => None,
            },
    )
}

fn contains_string(v: &Vec<String>, k: &String) -> (r: bool)
    ensures
        r == strings_view(v@).contains(k@),
{
    let mut i: usize = 0;
    while i < v.len()
        invariant
            i <= v.len(),
            forall|j: int| 0 <= j < i ==> strings_view(v@)[j] != k@,
        decreases v.len() - i,
    {
        if v[i] == *k {
            assert(strings_view(v@)[i as int] == k@);
            return true;
        }
        i += 1;
    }
    false
}

/// Normalizes a user's keys for one command.
pub fn normalize_shortcut_keys(keys: &[Option<String>]) -> (r: Option<Vec<String>>)
    ensures
        match (r, spec_normalize_keys(opt_strings_view(keys@))) {
            (Some(v), Some(s)) => strings_view(v@) == s,
            (None, None) => true,
            _ => false,
        },
{
    let ghost kv = opt_strings_view(keys@);
    let mut normalized: Vec<String> = Vec::new();
    let mut i: usize = 0;
    while i < keys.len()
        invariant
            i <= keys.len(),
            kv == opt_strings_view(keys@),
            all_parsed(kv.take(i as int)),
            strings_view(normalized@) == dedup(parsed_keys(kv.take(i as int))),
        decreases keys.len() - i,
    {
        let ghost before = strings_view(normalized@);
        assert(kv.take(i + 1).drop_last() =~= kv.take(i as int));
        assert(parsed_keys(kv.take(i + 1)).drop_last() =~= parsed_keys(kv.take(i as int)));
        match &keys[i] {
            None => {
                assert(kv[i as int] is None);
                return None;
            },
            Some(k) => {
                assert(parsed_keys(kv.take(i + 1)).last() == k@);
                if !contains_string(&normalized, k) {
                    normalized.push(k.clone());
                    assert(strings_view(normalized@) =~= before.push(k@));
                }
                assert(all_parsed(kv.take(i + 1))) by {
                    assert forall|j: int| 0 <= j < i + 1 implies (#[trigger] kv.take(i + 1)[j]) is Some by {
                        if j < i {
                            assert(kv.take(i + 1)[j] == kv.take(i as int)[j]);
                        }
                    }
                }
            },
        }
        i += 1;
    }
    assert(kv.take(keys.len() as int) =~= kv);
    if normalized.len() == 0 {
        None
    } else {
        Some(normalized)
    }
}

// ---------------------------------------------------------------------------
// Resolving a configuration
// ---------------------------------------------------------------------------
/// A configuration: identifiers with the keys given for them, as parsed.
pub open spec fn config_view(config: Seq<(String, Vec<Option<String>>)>) -> Seq<(Seq<char>, Seq<Option<Seq<char>>>)> {
    config.map_values(|e: (String, Vec<Option<String>>)| (e.0@, opt_strings_view(e.1@)))
}

/// The keys the configuration gives for `id` (its first entry for `id`).
pub open spec fn config_lookup(config: Seq<(Seq<char>, Seq<Option<Seq<char>>>)>, id: Seq<char>) -> Option<Seq<Option<Seq<char>>>>
    decreases config.len(),
{
    if config.len() == 0 {
        None
    } else if config[0].0 == id {
        Some(config[0].1)
    } else {
        config_lookup(config.drop_first(), id)
    }
}

/// The override the configuration asks for command `i`, before conflicts
/// are settled.
pub open spec fn requested_override(config: Seq<(Seq<char>, Seq<Option<Seq<char>>>)>, i: int) -> Option<Seq<Seq<char>>> {
    let c = spec_command_at(i);
    match config_lookup(config, spec_shortcut_id(c)) {
        None => None,
        Some(raw) => match spec_normalize_keys(raw) {
            Some(k) => if k != spec_default_keys(c) {
                Some(k)
            } else {
                None
            },
            None => None,
        },
    }
}

/// The overrides asked for, one entry per command.
pub open spec fn requested_overrides(config: Seq<(Seq<char>, Seq<Option<Seq<char>>>)>) -> Seq<Option<Seq<Seq<char>>>> {
    Seq::new(SHORTCUT_COUNT as nat, |i: int| requested_override(config, i))
}

/// The keys of command `i` under the overrides `eff`.
pub open spec fn keys_of(eff: Seq<Option<Seq<Seq<char>>>>, i: int) -> Seq<Seq<char>> {
    match eff[i] {
        Some(k) => k,
        None => spec_default_keys(spec_command_at(i)),
    }
}

/// The two key lists share a key.
pub open spec fn keys_overlap(a: Seq<Seq<char>>, b: Seq<Seq<char>>) -> bool {
    exists|x: int, y: int| 0 <= x < a.len() && 0 <= y < b.len() && #[trigger] a[x] == #[trigger] b[y]
}

/// Commands `i` and `j` are different, bound in the same context, and share
/// a key.
pub open spec fn pair_conflicts(eff: Seq<Option<Seq<Seq<char>>>>, i: int, j: int) -> bool {
    &&& i != j
    &&& spec_in_block_context(spec_command_at(i)) == spec_in_block_context(spec_command_at(j))
    &&& keys_overlap(keys_of(eff, i), keys_of(eff, j))
}

/// Command `i` has an override that clashes with another command.
pub open spec fn is_conflicted(eff: Seq<Option<Seq<Seq<char>>>>, i: int) -> bool {
    eff[i] is Some && exists|j: int| 0 <= j < SHORTCUT_COUNT && #[trigger] pair_conflicts(eff, i, j)
}

pub open spec fn has_conflict(eff: Seq<Option<Seq<Seq<char>>>>) -> bool {
    exists|i: int| 0 <= i < SHORTCUT_COUNT && #[trigger] is_conflicted(eff, i)
}

/// Every clashing override dropped at once.
pub open spec fn reset_conflicted(eff: Seq<Option<Seq<Seq<char>>>>) -> Seq<Option<Seq<Seq<char>>>> {
    Seq::new(
        SHORTCUT_COUNT as nat,
        |i: int|
            if is_conflicted(eff, i) {
                None
            } else {
                eff[i]
            },
    )
}

/// Number of overrides.
pub open spec fn count_some(s: Seq<Option<Seq<Seq<char>>>>) -> nat
    decreases s.len(),
{
    if s.len() == 0 {
        0
    } else {
        count_some(s.drop_last()) + if s.last() is Some {
            1nat
        } else {
            0nat
        }
    }
}

/// Dropping some overrides, and no adding any, lowers the count.
pub proof fn lemma_count_drop(a: Seq<Option<Seq<Seq<char>>>>, b: Seq<Option<Seq<Seq<char>>>>)
    requires
        a.len() == b.len(),
        forall|i: int| 0 <= i < a.len() && (#[trigger] b[i]) is Some ==> a[i] is Some,
    ensures
        count_some(b) <= count_some(a),
        (exists|i: int| 0 <= i < a.len() && (#[trigger] a[i]) is Some && b[i] is None) ==> count_some(b)
            < count_some(a),
    decreases a.len(),
{
    if a.len() > 0 {
        let (a0, b0) = (a.drop_last(), b.drop_last());
        assert forall|i: int| 0 <= i < a0.len() && (#[trigger] b0[i]) is Some implies a0[i] is Some by {
            assert(b0[i] == b[i] && a0[i] == a[i]);
        }
        lemma_count_drop(a0, b0);
        assert(b.last() == b[b.len() - 1] && a.last() == a[a.len() - 1]);
        if exists|i: int| 0 <= i < a.len() && (#[trigger] a[i]) is Some && b[i] is None {
            let i = choose|i: int| 0 <= i < a.len() && (#[trigger] a[i]) is Some && b[i] is None;
            if i < a.len() - 1 {
                assert(a0[i] == a[i] && b0[i] == b[i]);
            }
        }
    }
}

pub proof fn lemma_reset_shrinks(eff: Seq<Option<Seq<Seq<char>>>>)
    requires
        eff.len() == SHORTCUT_COUNT,
        has_conflict(eff),
    ensures
        count_some(reset_conflicted(eff)) < count_some(eff),
{
    let r = reset_conflicted(eff);
    let i = choose|i: int| 0 <= i < SHORTCUT_COUNT && #[trigger] is_conflicted(eff, i);
    assert(eff[i] is Some && r[i] is None);
    lemma_count_drop(eff, r);
}

/// The overrides once clashes are settled: while some override clashes,
/// every clashing override falls back to its defaults.
pub open spec fn resolve(eff: Seq<Option<Seq<Seq<char>>>>) -> Seq<Option<Seq<Seq<char>>>>
    decreases count_some(eff),
{
    if eff.len() != SHORTCUT_COUNT || !has_conflict(eff) {
        eff
    } else {
        proof {
            lemma_reset_shrinks(eff);
        }
        resolve(reset_conflicted(eff))
    }
}

/// The overrides a configuration leaves in force, one entry per command.
pub open spec fn spec_normalize_shortcut_config(config: Seq<(Seq<char>, Seq<Option<Seq<char>>>)>) -> Seq<Option<Seq<Seq<char>>>> {
    resolve(requested_overrides(config))
}

pub open spec fn overrides_view(v: Seq<Option<Vec<String>>>) -> Seq<Option<Seq<Seq<char>>>> {
    v.map_values(
        |o: Option<Vec<String>>|
            match o {
                Some(k) => Some(strings_view(k@)),
                None => None,
            },
    )
}

fn lookup_config(config: &[(String, Vec<Option<String>>)], id: &str) -> (r: Option<usize>)
    ensures
        match (r, config_lookup(config_view(config@), id@)) {
            (Some(k), Some(raw)) => k < config.len() && opt_strings_view(config@[k as int].1@)
                == raw,
            (None, None) => true,
            _ => false,
        },
{
    let key = id.to_owned();
    let ghost cv = config_view(config@);
    let mut k: usize = 0;
    assert(cv.skip(0) =~= cv);
    while k < config.len()
        invariant
            k <= config.len(),
            key@ == id@,
            cv == config_view(config@),
            config_lookup(cv, id@) == config_lookup(cv.skip(k as int), id@),
        decreases config.len() - k,
    {
        assert(cv.skip(k as int)[0] == cv[k as int]);
        assert(cv.skip(k as int).drop_first() =~= cv.skip(k + 1));
        if config[k].0 == key {
            return Some(k);
        }
        k += 1;
    }
    None
}

fn keys_equal(a: &Vec<String>, b: &Vec<String>) -> (r: bool)
    ensures
        r == (strings_view(a@) == strings_view(b@)),
{
    if a.len() != b.len() {
        assert(strings_view(a@).len() != strings_view(b@).len());
        return false;
    }
    let mut i: usize = 0;
    while i < a.len()
        invariant
            i <= a.len() == b.len(),
            forall|j: int| 0 <= j < i ==> strings_view(a@)[j] == strings_view(b@)[j],
        decreases a.len() - i,
    {
        if a[i] != b[i] {
            assert(strings_view(a@)[i as int] != strings_view(b@)[i as int]);
            return false;
        }
        i += 1;
    }
    assert(strings_view(a@) =~= strings_view(b@));
    true
}

/// The override the configuration asks for the command at position `i`.
fn requested_override_at(config: &[(String, Vec<Option<String>>)], i: usize) -> (r: Option<Vec<String>>)
    requires
        i < SHORTCUT_COUNT,
    ensures
        match (r, requested_override(config_view(config@), i as int)) {
            (Some(v), Some(s)) => strings_view(v@) == s,
            (None, None) => true,
            _ => false,
        },
{
    let command = ShortcutCommand::at(i);
    match lookup_config(config, command.id()) {
        None => None,
        Some(k) => match normalize_shortcut_keys(config[k].1.as_slice()) {
            None => None,
            Some(keys) => {
                let defaults = command.default_keys();
                if keys_equal(&keys, &defaults) {
                    None
                } else {
                    Some(keys)
                }
            },
        },
    }
}

fn strings_overlap(a: &Vec<String>, b: &Vec<String>) -> (r: bool)
    ensures
        r == keys_overlap(strings_view(a@), strings_view(b@)),
{
    let ghost av = strings_view(a@);
    let ghost bv = strings_view(b@);
    let mut x: usize = 0;
    while x < a.len()
        invariant
            x <= a.len(),
            av == strings_view(a@),
            bv == strings_view(b@),
            forall|p: int, q: int| 0 <= p < x && 0 <= q < bv.len() ==> av[p] != bv[q],
        decreases a.len() - x,
    {
        if contains_string(b, &a[x]) {
            assert(av[x as int] == a@[x as int]@);
            let ghost q = choose|q: int| 0 <= q < bv.len() && bv[q] == a@[x as int]@;
            assert(av[x as int] == bv[q]);
            return true;
        }
        assert forall|q: int| 0 <= q < bv.len() implies av[x as int] != bv[q] by {
            assert(av[x as int] == a@[x as int]@);
        }
        x += 1;
    }
    false
}

fn effective_keys(eff: &Vec<Option<Vec<String>>>, i: usize) -> (r: Vec<String>)
    requires
        i < eff.len() == SHORTCUT_COUNT,
    ensures
        strings_view(r@) == keys_of(overrides_view(eff@), i as int),
{
    match &eff[i] {
        Some(k) => k.clone(),
        None => ShortcutCommand::at(i).default_keys(),
    }
}

/// Which overrides clash, one flag per command.
fn conflict_flags(eff: &Vec<Option<Vec<String>>>) -> (flags: Vec<bool>)
    requires
        eff.len() == SHORTCUT_COUNT,
    ensures
        flags.len() == SHORTCUT_COUNT,
        forall|i: int| 0 <= i < SHORTCUT_COUNT ==> #[trigger] flags@[i] == is_conflicted(
            overrides_view(eff@),
            i,
        ),
{
    let ghost ev = overrides_view(eff@);
    let mut flags: Vec<bool> = Vec::new();
    let mut i: usize = 0;
    while i < SHORTCUT_COUNT
        invariant
            i <= SHORTCUT_COUNT,
            eff.len() == SHORTCUT_COUNT,
            ev == overrides_view(eff@),
            flags.len() == i,
            forall|a: int| 0 <= a < i ==> #[trigger] flags@[a] == is_conflicted(ev, a),
        decreases SHORTCUT_COUNT - i,
    {
        let mut conflicted = false;
        if eff[i].is_some() {
            let left = effective_keys(eff, i);
            let left_block = ShortcutCommand::at(i).in_block_context();
            let mut j: usize = 0;
            while j < SHORTCUT_COUNT
                invariant
                    i < SHORTCUT_COUNT,
                    j <= SHORTCUT_COUNT,
                    eff.len() == SHORTCUT_COUNT,
                    ev == overrides_view(eff@),
                    strings_view(left@) == keys_of(ev, i as int),
                    left_block == spec_in_block_context(spec_command_at(i as int)),
                    conflicted == exists|b: int| 0 <= b < j && #[trigger] pair_conflicts(ev, i as int, b),
                decreases SHORTCUT_COUNT - j,
            {
                if j != i && ShortcutCommand::at(j).in_block_context() == left_block {
                    let right = effective_keys(eff, j);
                    if strings_overlap(&left, &right) {
                        assert(pair_conflicts(ev, i as int, j as int));
                        conflicted = true;
                    }
                }
                proof {
                    if !conflicted {
                        assert forall|b: int| 0 <= b < j + 1 implies !#[trigger] pair_conflicts(ev, i as int, b) by {
                        }
                    }
                }
                j += 1;
            }
            assert(ev[i as int] is Some);
        } else {
            assert(ev[i as int] is None);
        }
        flags.push(conflicted);
        i += 1;
    }
    flags
}

/// Resolves a configuration: for each command in table order, the keys of
/// the override left in force, or `None` where the command keeps its
/// defaults.
pub fn normalize_shortcut_config(config: &[(String, Vec<Option<String>>)]) -> (r: Vec<Option<Vec<String>>>)
    ensures
        r.len() == SHORTCUT_COUNT,
        overrides_view(r@) == spec_normalize_shortcut_config(config_view(config@)),
{
    let ghost cv = config_view(config@);
    let mut eff: Vec<Option<Vec<String>>> = Vec::new();
    let mut i: usize = 0;
    while i < SHORTCUT_COUNT
        invariant
            i <= SHORTCUT_COUNT,
            cv == config_view(config@),
            eff.len() == i,
            forall|a: int| 0 <= a < i ==> #[trigger] overrides_view(eff@)[a] == requested_override(cv, a),
        decreases SHORTCUT_COUNT - i,
    {
        let o = requested_override_at(config, i);
        let ghost before = overrides_view(eff@);
        eff.push(o);
        assert(overrides_view(eff@) =~= before.push(
            match o {
                Some(k) => Some(strings_view(k@)),
                None => None,
            },
        ));
        i += 1;
    }
    assert(overrides_view(eff@) =~= requested_overrides(cv));
    loop
        invariant
            eff.len() == SHORTCUT_COUNT,
            cv == config_view(config@),
            resolve(overrides_view(eff@)) == spec_normalize_shortcut_config(cv),
        ensures
            eff.len() == SHORTCUT_COUNT,
            overrides_view(eff@) == spec_normalize_shortcut_config(cv),
        decreases count_some(overrides_view(eff@)),
    {
        let ghost ev = overrides_view(eff@);
        let flags = conflict_flags(&eff);
        let mut any = false;
        let mut k: usize = 0;
        while k < SHORTCUT_COUNT
            invariant
                k <= SHORTCUT_COUNT,
                flags.len() == SHORTCUT_COUNT,
                any == exists|a: int| 0 <= a < k && #[trigger] flags@[a],
            decreases SHORTCUT_COUNT - k,
        {
            if flags[k] {
                any = true;
            }
            k += 1;
        }
        if !any {
            assert(!has_conflict(ev)) by {
                assert forall|a: int| 0 <= a < SHORTCUT_COUNT implies !#[trigger] is_conflicted(ev, a) by {
                    assert(flags@[a] == is_conflicted(ev, a));
                }
            }
            break;
        }
        assert(has_conflict(ev)) by {
            let a = choose|a: int| 0 <= a < SHORTCUT_COUNT && #[trigger] flags@[a];
            assert(is_conflicted(ev, a));
        }
        let mut m: usize = 0;
        while m < SHORTCUT_COUNT
            invariant
                m <= SHORTCUT_COUNT,
                eff.len() == SHORTCUT_COUNT,
                flags.len() == SHORTCUT_COUNT,
                ev.len() == SHORTCUT_COUNT,
                forall|a: int| 0 <= a < SHORTCUT_COUNT ==> #[trigger] flags@[a] == is_conflicted(ev, a),
                forall|a: int| 0 <= a < m ==> #[trigger] overrides_view(eff@)[a] == reset_conflicted(ev)[a],
                forall|a: int| m <= a < SHORTCUT_COUNT ==> #[trigger] overrides_view(eff@)[a] == ev[a],
            decreases SHORTCUT_COUNT - m,
        {
            let ghost prev = overrides_view(eff@);
            if flags[m] {
                eff.set(m, None);
                assert(overrides_view(eff@) =~= prev.update(m as int, None));
            }
            assert(reset_conflicted(ev)[m as int] == if is_conflicted(ev, m as int) {
                None
            } else {
                ev[m as int]
            });
            m += 1;
        }
        assert(overrides_view(eff@) =~= reset_conflicted(ev));
        proof {
            lemma_reset_shrinks(ev);
        }
    }
    eff
}

/// The keys in force for `command` under a configuration.
pub open spec fn spec_resolved_keys(config: Seq<(Seq<char>, Seq<Option<Seq<char>>>)>, command: ShortcutCommand) -> Seq<Seq<char>> {
    keys_of(spec_normalize_shortcut_config(config), spec_command_index(command) as int)
}

/// The keys in force for `command`: its override, or its defaults.
pub fn resolved_shortcut_keys(config: &[(String, Vec<Option<String>>)], command: ShortcutCommand) -> (r: Vec<String>)
    ensures
        strings_view(r@) == spec_resolved_keys(config_view(config@), command),
{
    let normalized = normalize_shortcut_config(config);
    proof {
        lemma_at_index(command);
    }
    effective_keys(&normalized, command.index())
}

/// Command `j` is not `command`, is bound in the same context, and its keys
/// in force share a key with `keys`.
pub open spec fn conflict_hit(command: ShortcutCommand, keys: Seq<Seq<char>>, config: Seq<(Seq<char>, Seq<Option<Seq<char>>>)>, j: int) -> bool {
    &&& spec_command_at(j) != command
    &&& spec_in_block_context(spec_command_at(j)) == spec_in_block_context(command)
    &&& keys_overlap(keys, spec_resolved_keys(config, spec_command_at(j)))
}

/// The first command, in table order, other than `command`, bound in the
/// same context, whose keys in force share a key with the proposed keys.
/// Nothing when the proposed keys do not normalize.
pub open spec fn spec_shortcut_conflict_for(command: ShortcutCommand, proposed: Seq<Option<Seq<char>>>, config: Seq<(Seq<char>, Seq<Option<Seq<char>>>)>) -> Option<ShortcutCommand> {
    match spec_normalize_keys(proposed) {
        None => None,
        Some(keys) => if exists|j: int| 0 <= j < SHORTCUT_COUNT && #[trigger] conflict_hit(command, keys, config, j) {
            let j = choose|j: int|
                0 <= j < SHORTCUT_COUNT && #[trigger] conflict_hit(command, keys, config, j) && forall|k: int|
                    0 <= k < j ==> !#[trigger] conflict_hit(command, keys, config, k);
            Some(spec_command_at(j))
        } else {
            None
        },
    }
}

/// Checks a draft of keys for `command` against the keys in force for the
/// other commands; gives the first command it clashes with.
pub fn shortcut_conflict_for(command: ShortcutCommand, proposed_keys: &[Option<String>], config: &[(String, Vec<Option<String>>)]) -> (r: Option<ShortcutCommand>)
    ensures
        r == spec_shortcut_conflict_for(command, opt_strings_view(proposed_keys@), config_view(config@)),
{
    let ghost cv = config_view(config@);
    let proposed = match normalize_shortcut_keys(proposed_keys) {
        None => return None,
        Some(k) => k,
    };
    let ghost keys = strings_view(proposed@);
    let normalized = normalize_shortcut_config(config);
    let block = command.in_block_context();
    let mut j: usize = 0;
    while j < SHORTCUT_COUNT
        invariant
            j <= SHORTCUT_COUNT,
            cv == config_view(config@),
            keys == strings_view(proposed@),
            spec_normalize_keys(opt_strings_view(proposed_keys@)) == Some(keys),
            normalized.len() == SHORTCUT_COUNT,
            overrides_view(normalized@) == spec_normalize_shortcut_config(cv),
            block == spec_in_block_context(command),
            forall|k: int| 0 <= k < j ==> !#[trigger] conflict_hit(command, keys, cv, k),
        decreases SHORTCUT_COUNT - j,
    {
        let other = ShortcutCommand::at(j);
        proof {
            lemma_index_at(j as int);
        }
        if other != command && other.in_block_context() == block {
            let other_keys = effective_keys(&normalized, j);
            if strings_overlap(&proposed, &other_keys) {
                assert(conflict_hit(command, keys, cv, j as int));
                return Some(other);
            }
        }
        j += 1;
    }
    None
}

/// One key bound to one command.
#[derive(Debug)]
pub struct ResolvedBinding {
    pub command: ShortcutCommand,
    pub key: String,
    /// `Some("BlockEditor")` for block-editor commands, `None` for global
    /// ones.
    pub context: Option<&'static str>,
}

impl ResolvedBinding {
    pub open spec fn view(&self) -> (ShortcutCommand, Seq<char>, Option<Seq<char>>) {
        (
            self.command,
            self.key@,
            match self.context {
                Some(c) => Some(c@),
                None => None,
            },
        )
    }
}

pub open spec fn bindings_view(v: Seq<ResolvedBinding>) -> Seq<(ShortcutCommand, Seq<char>, Option<Seq<char>>)> {
    v.map_values(|b: ResolvedBinding| b.view())
}

/// The context a command is bound in: `BlockEditor` for block-editor
/// commands, none for global ones.
pub open spec fn spec_context_of(command: ShortcutCommand) -> Option<Seq<char>> {
    if spec_in_block_context(command) {
        Some("BlockEditor"@)
    } else {
        None
    }
}

/// The bindings of command `i`, one per key in force.
pub open spec fn command_bindings(eff: Seq<Option<Seq<Seq<char>>>>, i: int) -> Seq<(ShortcutCommand, Seq<char>, Option<Seq<char>>)> {
    keys_of(eff, i).map_values(
        |k: Seq<char>| (spec_command_at(i), k, spec_context_of(spec_command_at(i))),
    )
}

/// The bindings of the first `n` commands, in table order.
pub open spec fn bindings_upto(eff: Seq<Option<Seq<Seq<char>>>>, n: int) -> Seq<(ShortcutCommand, Seq<char>, Option<Seq<char>>)>
    decreases n,
{
    if n <= 0 {
        Seq::empty()
    } else {
        bindings_upto(eff, n - 1) + command_bindings(eff, n - 1)
    }
}

/// Every key in force for every command, in table order, with the context
/// it is bound in.
pub fn resolved_keybindings(config: &[(String, Vec<Option<String>>)]) -> (r: Vec<ResolvedBinding>)
    ensures
        bindings_view(r@) == bindings_upto(
            spec_normalize_shortcut_config(config_view(config@)),
            SHORTCUT_COUNT as int,
        ),
{
    let normalized = normalize_shortcut_config(config);
    let ghost ev = overrides_view(normalized@);
    let mut out: Vec<ResolvedBinding> = Vec::new();
    let mut i: usize = 0;
    while i < SHORTCUT_COUNT
        invariant
            i <= SHORTCUT_COUNT,
            normalized.len() == SHORTCUT_COUNT,
            ev == overrides_view(normalized@),
            bindings_view(out@) == bindings_upto(ev, i as int),
        decreases SHORTCUT_COUNT - i,
    {
        let command = ShortcutCommand::at(i);
        let def = shortcut_definition(command);
        let keys = effective_keys(&normalized, i);
        let ghost base = bindings_view(out@);
        let ghost cb = command_bindings(ev, i as int);
        let mut k: usize = 0;
        while k < keys.len()
            invariant
                k <= keys.len(),
                i < SHORTCUT_COUNT,
                command == spec_command_at(i as int),
                def.context is Some <==> spec_in_block_context(command),
                def.context matches Some(c) ==> c@ == "BlockEditor"@,
                strings_view(keys@) == keys_of(ev, i as int),
                cb == command_bindings(ev, i as int),
                bindings_view(out@) == base + cb.take(k as int),
            decreases keys.len() - k,
        {
            let ghost prev = bindings_view(out@);
            let b = ResolvedBinding { command, key: keys[k].clone(), context: def.context };
            assert(b.view() == (command, keys@[k as int]@, spec_context_of(command)));
            assert(strings_view(keys@)[k as int] == keys@[k as int]@);
            assert(cb[k as int] == b.view());
            out.push(b);
            assert(bindings_view(out@) =~= prev.push(cb[k as int]));
            assert(bindings_view(out@) =~= base + cb.take(k + 1));
            k += 1;
        }
        assert(cb.take(keys.len() as int) =~= cb);
        i += 1;
    }
    out
}

// ---------------------------------------------------------------------------
// Laws
// ---------------------------------------------------------------------------
proof fn lemma_resolve(eff: Seq<Option<Seq<Seq<char>>>>)
    requires
        eff.len() == SHORTCUT_COUNT,
    ensures
        resolve(eff).len() == SHORTCUT_COUNT,
        !has_conflict(resolve(eff)),
        forall|i: int| 0 <= i < SHORTCUT_COUNT && (#[trigger] resolve(eff)[i]) is Some ==> resolve(eff)[i] == eff[i],
    decreases count_some(eff),
{
    if has_conflict(eff) {
        let r = reset_conflicted(eff);
        lemma_reset_shrinks(eff);
        lemma_resolve(r);
        assert forall|i: int| 0 <= i < SHORTCUT_COUNT && (#[trigger] resolve(eff)[i]) is Some implies resolve(eff)[i] == eff[i] by {
            assert(resolve(eff) == resolve(r));
            assert(resolve(r)[i] == r[i]);
        }
    }
}

/// Once a configuration is resolved, no override in force clashes with
/// another command's keys in the same context.
pub proof fn law_resolved_config_has_no_conflict(config: Seq<(Seq<char>, Seq<Option<Seq<char>>>)>)
    ensures
        !has_conflict(spec_normalize_shortcut_config(config)),
        spec_normalize_shortcut_config(config).len() == SHORTCUT_COUNT,
{
    lemma_resolve(requested_overrides(config));
}

/// Resolving overrides that are already resolved changes nothing.
pub proof fn law_resolution_is_stable(config: Seq<(Seq<char>, Seq<Option<Seq<char>>>)>)
    ensures
        resolve(spec_normalize_shortcut_config(config)) == spec_normalize_shortcut_config(config),
{
    lemma_resolve(requested_overrides(config));
}

/// An override in force is exactly the normalized keys the configuration
/// gave for that command: resolving only drops overrides.
pub proof fn law_overrides_in_force_were_requested(config: Seq<(Seq<char>, Seq<Option<Seq<char>>>)>, i: int)
    requires
        0 <= i < SHORTCUT_COUNT,
        spec_normalize_shortcut_config(config)[i] is Some,
    ensures
        spec_normalize_shortcut_config(config)[i] == requested_override(config, i),
{
    lemma_resolve(requested_overrides(config));
}

/// A command whose configured keys do not all parse, or leave no key, or
/// equal its defaults, keeps its defaults.
pub proof fn law_unusable_keys_fall_back(config: Seq<(Seq<char>, Seq<Option<Seq<char>>>)>, i: int)
    requires
        0 <= i < SHORTCUT_COUNT,
        match config_lookup(config, spec_shortcut_id(spec_command_at(i))) {
            None => true,
            Some(raw) => spec_normalize_keys(raw) is None || spec_normalize_keys(raw) == Some(
                spec_default_keys(spec_command_at(i)),
            ),
        },
    ensures
        spec_normalize_shortcut_config(config)[i] is None,
        spec_resolved_keys(config, spec_command_at(i)) == spec_default_keys(spec_command_at(i)),
{
    lemma_resolve(requested_overrides(config));
    lemma_index_at(i);
    assert(requested_overrides(config)[i] is None);
}

/// Keys `k` clash with nothing command `j` could end up with: neither its
/// defaults nor the override the configuration asks for it.
pub open spec fn clash_free_with(config: Seq<(Seq<char>, Seq<Option<Seq<char>>>)>, k: Seq<Seq<char>>, i: int, j: int) -> bool {
    j == i || spec_in_block_context(spec_command_at(j)) != spec_in_block_context(spec_command_at(i))
        || (!keys_overlap(k, spec_default_keys(spec_command_at(j))) && (requested_override(
        config,
        j,
    ) matches Some(kj) ==> !keys_overlap(k, kj)))
}

proof fn lemma_clash_free_survives(config: Seq<(Seq<char>, Seq<Option<Seq<char>>>)>, eff: Seq<Option<Seq<Seq<char>>>>, i: int, k: Seq<Seq<char>>)
    requires
        0 <= i < SHORTCUT_COUNT,
        eff.len() == SHORTCUT_COUNT,
        eff[i] == Some(k),
        forall|j: int| 0 <= j < SHORTCUT_COUNT && (#[trigger] eff[j]) is Some ==> eff[j] == requested_override(config, j),
        forall|j: int| 0 <= j < SHORTCUT_COUNT ==> #[trigger] clash_free_with(config, k, i, j),
    ensures
        resolve(eff)[i] == Some(k),
    decreases count_some(eff),
{
    if has_conflict(eff) {
        let r = reset_conflicted(eff);
        assert(!is_conflicted(eff, i)) by {
            assert forall|j: int| 0 <= j < SHORTCUT_COUNT implies !#[trigger] pair_conflicts(eff, i, j) by {
                assert(clash_free_with(config, k, i, j));
                if eff[j] is Some {
                    assert(eff[j] == requested_override(config, j));
                }
            }
        }
        assert forall|j: int| 0 <= j < SHORTCUT_COUNT && (#[trigger] r[j]) is Some implies r[j]
            == requested_override(config, j) by {
            assert(r[j] == eff[j]);
        }
        lemma_reset_shrinks(eff);
        lemma_clash_free_survives(config, r, i, k);
    }
}

/// An override whose keys clash with nothing another command in the same
/// context could end up with stays in force.
pub proof fn law_clash_free_override_stays(config: Seq<(Seq<char>, Seq<Option<Seq<char>>>)>, i: int, k: Seq<Seq<char>>)
    requires
        0 <= i < SHORTCUT_COUNT,
        requested_override(config, i) == Some(k),
        forall|j: int| 0 <= j < SHORTCUT_COUNT ==> #[trigger] clash_free_with(config, k, i, j),
    ensures
        spec_normalize_shortcut_config(config)[i] == Some(k),
        spec_resolved_keys(config, spec_command_at(i)) == k,
{
    let eff = requested_overrides(config);
    lemma_clash_free_survives(config, eff, i, k);
    lemma_index_at(i);
}

/// The keys of an override written back as a configuration gives them.
pub open spec fn as_given(keys: Seq<Seq<char>>) -> Seq<Option<Seq<char>>> {
    keys.map_values(|k: Seq<char>| Some(k))
}

/// A configuration holding exactly the overrides `eff` of the first `n`
/// commands: one entry per override, in table order.
pub open spec fn config_of_overrides(eff: Seq<Option<Seq<Seq<char>>>>, n: int) -> Seq<(Seq<char>, Seq<Option<Seq<char>>>)>
    decreases n,
{
    if n <= 0 {
        Seq::empty()
    } else {
        let rest = config_of_overrides(eff, n - 1);
        match eff[n - 1] {
            Some(k) => rest.push((spec_shortcut_id(spec_command_at(n - 1)), as_given(k))),
            None => rest,
        }
    }
}

/// No key occurs twice.
pub open spec fn no_repeats(s: Seq<Seq<char>>) -> bool {
    forall|i: int, j: int| 0 <= i < j < s.len() ==> s[i] != s[j]
}

proof fn lemma_dedup_no_repeats(s: Seq<Seq<char>>)
    ensures
        no_repeats(dedup(s)),
    decreases s.len(),
{
    if s.len() > 0 {
        lemma_dedup_no_repeats(s.drop_last());
        let d = dedup(s.drop_last());
        if !d.contains(s.last()) {
            assert forall|i: int, j: int| 0 <= i < j < d.push(s.last()).len() implies d.push(
                s.last(),
            )[i] != d.push(s.last())[j] by {
                if j == d.len() {
                    assert(d.push(s.last())[i] == d[i]);
                }
            }
        }
    }
}

proof fn lemma_dedup_keeps(s: Seq<Seq<char>>)
    requires
        no_repeats(s),
    ensures
        dedup(s) == s,
    decreases s.len(),
{
    if s.len() > 0 {
        let t = s.drop_last();
        assert(no_repeats(t)) by {
            assert forall|i: int, j: int| 0 <= i < j < t.len() implies t[i] != t[j] by {
                assert(t[i] == s[i] && t[j] == s[j]);
            }
        }
        lemma_dedup_keeps(t);
        assert(!t.contains(s.last())) by {
            if t.contains(s.last()) {
                let w = choose|w: int| 0 <= w < t.len() && t[w] == s.last();
                assert(s[w] == s[s.len() - 1]);
            }
        }
        assert(t.push(s.last()) =~= s);
    }
}

proof fn lemma_lookup_push(s: Seq<(Seq<char>, Seq<Option<Seq<char>>>)>, e: (Seq<char>, Seq<Option<Seq<char>>>), id: Seq<char>)
    ensures
        config_lookup(s.push(e), id) == match config_lookup(s, id) {
            Some(x) => Some(x),
            None => if e.0 == id {
                Some(e.1)
            } else {
                None
            },
        },
    decreases s.len(),
{
    if s.len() > 0 {
        assert(s.push(e)[0] == s[0]);
        assert(s.push(e).drop_first() =~= s.drop_first().push(e));
        lemma_lookup_push(s.drop_first(), e, id);
    } else {
        let empty = Seq::<(Seq<char>, Seq<Option<Seq<char>>>)>::empty();
        assert(s.push(e).drop_first() =~= empty);
        assert(config_lookup(empty, id) is None);
        assert(s.push(e)[0] == e);
    }
}

proof fn lemma_lookup_overrides(eff: Seq<Option<Seq<Seq<char>>>>, n: int, i: int)
    requires
        0 <= n <= SHORTCUT_COUNT,
        eff.len() == SHORTCUT_COUNT,
        0 <= i < SHORTCUT_COUNT,
    ensures
        config_lookup(config_of_overrides(eff, n), spec_shortcut_id(spec_command_at(i))) == if i
            < n && eff[i] is Some {
            Some(as_given(eff[i].unwrap()))
        } else {
            None
        },
    decreases n,
{
    if n > 0 {
        lemma_lookup_overrides(eff, n - 1, i);
        let id = spec_shortcut_id(spec_command_at(i));
        if let Some(k) = eff[n - 1] {
            let rest = config_of_overrides(eff, n - 1);
            let e = (spec_shortcut_id(spec_command_at(n - 1)), as_given(k));
            lemma_lookup_push(rest, e, id);
            if i != n - 1 {
                lemma_index_at(i);
                lemma_index_at(n - 1);
                lemma_ids_distinct(spec_command_at(i), spec_command_at(n - 1));
            }
        }
    }
}

proof fn lemma_given_keys_normalize(k: Seq<Seq<char>>)
    requires
        no_repeats(k),
        k.len() > 0,
    ensures
        spec_normalize_keys(as_given(k)) == Some(k),
{
    assert(all_parsed(as_given(k)));
    assert(parsed_keys(as_given(k)) =~= k);
    lemma_dedup_keeps(k);
}

/// Normalizing a configuration that holds just the overrides left in force
/// gives those overrides again: normalizing twice changes nothing.
pub proof fn law_normalizing_twice_changes_nothing(config: Seq<(Seq<char>, Seq<Option<Seq<char>>>)>)
    ensures
        spec_normalize_shortcut_config(
            config_of_overrides(spec_normalize_shortcut_config(config), SHORTCUT_COUNT as int),
        ) == spec_normalize_shortcut_config(config),
{
    let r = spec_normalize_shortcut_config(config);
    law_resolved_config_has_no_conflict(config);
    law_resolution_is_stable(config);
    let again = config_of_overrides(r, SHORTCUT_COUNT as int);
    assert forall|i: int| 0 <= i < SHORTCUT_COUNT implies #[trigger] requested_overrides(again)[i]
        == r[i] by {
        lemma_lookup_overrides(r, SHORTCUT_COUNT as int, i);
        if let Some(k) = r[i] {
            law_overrides_in_force_were_requested(config, i);
            let raw = config_lookup(config, spec_shortcut_id(spec_command_at(i))).unwrap();
            lemma_dedup_no_repeats(parsed_keys(raw));
            lemma_given_keys_normalize(k);
        }
    }
    assert(requested_overrides(again) =~= r);
}

/// Every override left in force belongs to a command the configuration
/// names, holds at least one key, repeats none and differs from the
/// command's defaults.
pub proof fn law_overrides_in_force_are_usable(config: Seq<(Seq<char>, Seq<Option<Seq<char>>>)>, i: int)
    requires
        0 <= i < SHORTCUT_COUNT,
        spec_normalize_shortcut_config(config)[i] is Some,
    ensures
        ({
            let k = spec_normalize_shortcut_config(config)[i].unwrap();
            &&& config_lookup(config, spec_shortcut_id(spec_command_at(i))) is Some
            &&& k.len() > 0
            &&& no_repeats(k)
            &&& k != spec_default_keys(spec_command_at(i))
        }),
{
    law_overrides_in_force_were_requested(config, i);
    let raw = config_lookup(config, spec_shortcut_id(spec_command_at(i))).unwrap();
    lemma_dedup_no_repeats(parsed_keys(raw));
}

/// The keys come as a Command key and the same key with Control, for macOS
/// and for other systems.
pub open spec fn mac_key(k: Seq<char>) -> bool {
    k.len() >= 4 && k.take(4) == "cmd-"@
}

/// A key with Control.
pub open spec fn control_key(k: Seq<char>) -> bool {
    k.len() >= 5 && k.take(5) == "ctrl-"@
}

/// What the default key table promises of one command: at least one key,
/// none repeated, and every Command key matched by the same key with
/// Control and the other way round, so each shortcut works on macOS and on
/// Windows and Linux.
pub open spec fn defaults_cover_both_platforms(d: Seq<Seq<char>>) -> bool {
    &&& d.len() > 0
    &&& no_repeats(d)
    &&& forall|i: int| 0 <= i < d.len() && mac_key(#[trigger] d[i]) ==> d.contains("ctrl-"@ + d[i].skip(4))
    &&& forall|i: int| 0 <= i < d.len() && control_key(#[trigger] d[i]) ==> d.contains("cmd-"@ + d[i].skip(5))
}

proof fn lemma_single_default(k: Seq<char>)
    requires
        k.len() > 0,
        k[0] != 'c',
    ensures
        defaults_cover_both_platforms(seq![k]),
{
    reveal_strlit("cmd-");
    reveal_strlit("ctrl-");
    let d = seq![k];
    assert(d[0] == k);
    assert(!mac_key(k)) by {
        if mac_key(k) {
            assert(k.take(4)[0] == k[0]);
        }
    }
    assert(!control_key(k)) by {
        if control_key(k) {
            assert(k.take(5)[0] == k[0]);
        }
    }
}

proof fn lemma_paired_defaults(t: Seq<char>)
    ensures
        defaults_cover_both_platforms(seq!["cmd-"@ + t, "ctrl-"@ + t]),
{
    reveal_strlit("cmd-");
    reveal_strlit("ctrl-");
    let a = "cmd-"@ + t;
    let b = "ctrl-"@ + t;
    let d = seq![a, b];
    assert(d[0] == a && d[1] == b);
    assert(a[1] == 'm' && b[1] == 't');
    assert(a.skip(4) =~= t);
    assert(b.skip(5) =~= t);
    assert(a.take(4) =~= "cmd-"@);
    assert(b.take(5) =~= "ctrl-"@);
    assert(!control_key(a)) by {
        if control_key(a) {
            assert(a.take(5)[1] == a[1]);
        }
    }
    assert(!mac_key(b)) by {
        if mac_key(b) {
            assert(b.take(4)[1] == b[1]);
        }
    }
    assert(d.contains(b));
    assert(d.contains(a));
}

/// Every command's default keys are usable and work on every platform:
/// at least one key, no repeats, and Command and Control keys in matching
/// pairs.
pub proof fn law_default_keys_cover_both_platforms(c: ShortcutCommand)
    ensures
        defaults_cover_both_platforms(spec_default_keys(c)),
{
    reveal_strlit("cmd-");
    reveal_strlit("ctrl-");
    match c {
        ShortcutCommand::Newline => {
            reveal_strlit("enter");
            lemma_single_default("enter"@);
        },
        ShortcutCommand::DeleteBack => {
            reveal_strlit("backspace");
            lemma_single_default("backspace"@);
        },
        ShortcutCommand::Delete => {
            reveal_strlit("delete");
            lemma_single_default("delete"@);
        },
        ShortcutCommand::FocusPrev => {
            reveal_strlit("up");
            lemma_single_default("up"@);
        },
        ShortcutCommand::FocusNext => {
            reveal_strlit("down");
            lemma_single_default("down"@);
        },
        ShortcutCommand::MoveLeft => {
            reveal_strlit("left");
            lemma_single_default("left"@);
        },
        ShortcutCommand::MoveRight => {
            reveal_strlit("right");
            lemma_single_default("right"@);
        },
        ShortcutCommand::Home => {
            reveal_strlit("home");
            lemma_single_default("home"@);
        },
        ShortcutCommand::End => {
            reveal_strlit("end");
            lemma_single_default("end"@);
        },
        ShortcutCommand::SelectLeft => {
            reveal_strlit("shift-left");
            lemma_single_default("shift-left"@);
        },
        ShortcutCommand::SelectRight => {
            reveal_strlit("shift-right");
            lemma_single_default("shift-right"@);
        },
        ShortcutCommand::SelectHome => {
            reveal_strlit("shift-home");
            lemma_single_default("shift-home"@);
        },
        ShortcutCommand::SelectEnd => {
            reveal_strlit("shift-end");
            lemma_single_default("shift-end"@);
        },
        ShortcutCommand::SelectAll => {
            reveal_strlit("cmd-a");
            reveal_strlit("ctrl-a");
            reveal_strlit("a");
            assert("cmd-a"@ =~= "cmd-"@ + "a"@);
            assert("ctrl-a"@ =~= "ctrl-"@ + "a"@);
            lemma_paired_defaults("a"@);
        },
        ShortcutCommand::Copy => {
            reveal_strlit("cmd-c");
            reveal_strlit("ctrl-c");
            reveal_strlit("c");
            assert("cmd-c"@ =~= "cmd-"@ + "c"@);
            assert("ctrl-c"@ =~= "ctrl-"@ + "c"@);
            lemma_paired_defaults("c"@);
        },
        ShortcutCommand::Cut => {
            reveal_strlit("cmd-x");
            reveal_strlit("ctrl-x");
            reveal_strlit("x");
            assert("cmd-x"@ =~= "cmd-"@ + "x"@);
            assert("ctrl-x"@ =~= "ctrl-"@ + "x"@);
            lemma_paired_defaults("x"@);
        },
        ShortcutCommand::Paste => {
            reveal_strlit("cmd-v");
            reveal_strlit("ctrl-v");
            reveal_strlit("v");
            assert("cmd-v"@ =~= "cmd-"@ + "v"@);
            assert("ctrl-v"@ =~= "ctrl-"@ + "v"@);
            lemma_paired_defaults("v"@);
        },
        ShortcutCommand::Undo => {
            reveal_strlit("cmd-z");
            reveal_strlit("ctrl-z");
            reveal_strlit("z");
            assert("cmd-z"@ =~= "cmd-"@ + "z"@);
            assert("ctrl-z"@ =~= "ctrl-"@ + "z"@);
            lemma_paired_defaults("z"@);
        },
        ShortcutCommand::BoldSelection => {
            reveal_strlit("cmd-b");
            reveal_strlit("ctrl-b");
            reveal_strlit("b");
            assert("cmd-b"@ =~= "cmd-"@ + "b"@);
            assert("ctrl-b"@ =~= "ctrl-"@ + "b"@);
            lemma_paired_defaults("b"@);
        },
        ShortcutCommand::ItalicSelection => {
            reveal_strlit("cmd-i");
            reveal_strlit("ctrl-i");
            reveal_strlit("i");
            assert("cmd-i"@ =~= "cmd-"@ + "i"@);
            assert("ctrl-i"@ =~= "ctrl-"@ + "i"@);
            lemma_paired_defaults("i"@);
        },
        ShortcutCommand::UnderlineSelection => {
            reveal_strlit("cmd-u");
            reveal_strlit("ctrl-u");
            reveal_strlit("u");
            assert("cmd-u"@ =~= "cmd-"@ + "u"@);
            assert("ctrl-u"@ =~= "ctrl-"@ + "u"@);
            lemma_paired_defaults("u"@);
        },
        ShortcutCommand::CodeSelection => {
            reveal_strlit("cmd-`");
            reveal_strlit("ctrl-`");
            reveal_strlit("`");
            assert("cmd-`"@ =~= "cmd-"@ + "`"@);
            assert("ctrl-`"@ =~= "ctrl-"@ + "`"@);
            lemma_paired_defaults("`"@);
        },
        ShortcutCommand::IndentBlock => {
            reveal_strlit("tab");
            lemma_single_default("tab"@);
        },
        ShortcutCommand::OutdentBlock => {
            reveal_strlit("shift-tab");
            lemma_single_default("shift-tab"@);
        },
        ShortcutCommand::ExitCodeBlock => {
            reveal_strlit("cmd-enter");
            reveal_strlit("ctrl-enter");
            reveal_strlit("enter");
            assert("cmd-enter"@ =~= "cmd-"@ + "enter"@);
            assert("ctrl-enter"@ =~= "ctrl-"@ + "enter"@);
            lemma_paired_defaults("enter"@);
        },
        ShortcutCommand::SaveDocument => {
            reveal_strlit("cmd-s");
            reveal_strlit("ctrl-s");
            reveal_strlit("s");
            assert("cmd-s"@ =~= "cmd-"@ + "s"@);
            assert("ctrl-s"@ =~= "ctrl-"@ + "s"@);
            lemma_paired_defaults("s"@);
        },
        ShortcutCommand::SaveDocumentAs => {
            reveal_strlit("cmd-shift-s");
            reveal_strlit("ctrl-shift-s");
            reveal_strlit("shift-s");
            assert("cmd-shift-s"@ =~= "cmd-"@ + "shift-s"@);
            assert("ctrl-shift-s"@ =~= "ctrl-"@ + "shift-s"@);
            lemma_paired_defaults("shift-s"@);
        },
        ShortcutCommand::NewWindow => {
            reveal_strlit("cmd-n");
            reveal_strlit("ctrl-n");
            reveal_strlit("n");
            assert("cmd-n"@ =~= "cmd-"@ + "n"@);
            assert("ctrl-n"@ =~= "ctrl-"@ + "n"@);
            lemma_paired_defaults("n"@);
        },
        ShortcutCommand::OpenFile => {
            reveal_strlit("cmd-o");
            reveal_strlit("ctrl-o");
            reveal_strlit("o");
            assert("cmd-o"@ =~= "cmd-"@ + "o"@);
            assert("ctrl-o"@ =~= "ctrl-"@ + "o"@);
            lemma_paired_defaults("o"@);
        },
        ShortcutCommand::QuitApplication => {
            reveal_strlit("cmd-q");
            reveal_strlit("ctrl-q");
            reveal_strlit("q");
            assert("cmd-q"@ =~= "cmd-"@ + "q"@);
            assert("ctrl-q"@ =~= "ctrl-"@ + "q"@);
            lemma_paired_defaults("q"@);
        },
        ShortcutCommand::DismissTransientUi => {
            reveal_strlit("escape");
            lemma_single_default("escape"@);
        },
    }
}

/// The command a default key belongs to, told by the key's length, first
/// and last character.
pub open spec fn default_key_owner(fp: (nat, char, char)) -> Option<ShortcutCommand> {
    if fp == (5nat, 'e', 'r') {
        Some(ShortcutCommand::Newline)
    } else if fp == (9nat, 'b', 'e') {
        Some(ShortcutCommand::DeleteBack)
    } else if fp == (6nat, 'd', 'e') {
        Some(ShortcutCommand::Delete)
    } else if fp == (2nat, 'u', 'p') {
        Some(ShortcutCommand::FocusPrev)
    } else if fp == (4nat, 'd', 'n') {
        Some(ShortcutCommand::FocusNext)
    } else if fp == (4nat, 'l', 't') {
        Some(ShortcutCommand::MoveLeft)
    } else if fp == (5nat, 'r', 't') {
        Some(ShortcutCommand::MoveRight)
    } else if fp == (4nat, 'h', 'e') {
        Some(ShortcutCommand::Home)
    } else if fp == (3nat, 'e', 'd') {
        Some(ShortcutCommand::End)
    } else if fp == (10nat, 's', 't') {
        Some(ShortcutCommand::SelectLeft)
    } else if fp == (11nat, 's', 't') {
        Some(ShortcutCommand::SelectRight)
    } else if fp == (10nat, 's', 'e') {
        Some(ShortcutCommand::SelectHome)
    } else if fp == (9nat, 's', 'd') {
        Some(ShortcutCommand::SelectEnd)
    } else if fp == (5nat, 'c', 'a') {
        Some(ShortcutCommand::SelectAll)
    } else if fp == (6nat, 'c', 'a') {
        Some(ShortcutCommand::SelectAll)
    } else if fp == (5nat, 'c', 'c') {
        Some(ShortcutCommand::Copy)
    } else if fp == (6nat, 'c', 'c') {
        Some(ShortcutCommand::Copy)
    } else if fp == (5nat, 'c', 'x') {
        Some(ShortcutCommand::Cut)
    } else if fp == (6nat, 'c', 'x') {
        Some(ShortcutCommand::Cut)
    } else if fp == (5nat, 'c', 'v') {
        Some(ShortcutCommand::Paste)
    } else if fp == (6nat, 'c', 'v') {
        Some(ShortcutCommand::Paste)
    } else if fp == (5nat, 'c', 'z') {
        Some(ShortcutCommand::Undo)
    } else if fp == (6nat, 'c', 'z') {
        Some(ShortcutCommand::Undo)
    } else if fp == (5nat, 'c', 'b') {
        Some(ShortcutCommand::BoldSelection)
    } else if fp == (6nat, 'c', 'b') {
        Some(ShortcutCommand::BoldSelection)
    } else if fp == (5nat, 'c', 'i') {
        Some(ShortcutCommand::ItalicSelection)
    } else if fp == (6nat, 'c', 'i') {
        Some(ShortcutCommand::ItalicSelection)
    } else if fp == (5nat, 'c', 'u') {
        Some(ShortcutCommand::UnderlineSelection)
    } else if fp == (6nat, 'c', 'u') {
        Some(ShortcutCommand::UnderlineSelection)
    } else if fp == (5nat, 'c', '`') {
        Some(ShortcutCommand::CodeSelection)
    } else if fp == (6nat, 'c', '`') {
        Some(ShortcutCommand::CodeSelection)
    } else if fp == (3nat, 't', 'b') {
        Some(ShortcutCommand::IndentBlock)
    } else if fp == (9nat, 's', 'b') {
        Some(ShortcutCommand::OutdentBlock)
    } else if fp == (9nat, 'c', 'r') {
        Some(ShortcutCommand::ExitCodeBlock)
    } else if fp == (10nat, 'c', 'r') {
        Some(ShortcutCommand::ExitCodeBlock)
    } else if fp == (5nat, 'c', 's') {
        Some(ShortcutCommand::SaveDocument)
    } else if fp == (6nat, 'c', 's') {
        Some(ShortcutCommand::SaveDocument)
    } else if fp == (11nat, 'c', 's') {
        Some(ShortcutCommand::SaveDocumentAs)
    } else if fp == (12nat, 'c', 's') {
        Some(ShortcutCommand::SaveDocumentAs)
    } else if fp == (5nat, 'c', 'n') {
        Some(ShortcutCommand::NewWindow)
    } else if fp == (6nat, 'c', 'n') {
        Some(ShortcutCommand::NewWindow)
    } else if fp == (5nat, 'c', 'o') {
        Some(ShortcutCommand::OpenFile)
    } else if fp == (6nat, 'c', 'o') {
        Some(ShortcutCommand::OpenFile)
    } else if fp == (5nat, 'c', 'q') {
        Some(ShortcutCommand::QuitApplication)
    } else if fp == (6nat, 'c', 'q') {
        Some(ShortcutCommand::QuitApplication)
    } else if fp == (6nat, 'e', 'e') {
        Some(ShortcutCommand::DismissTransientUi)
    } else {
        None
    }
}

/// The length, first and last character of a key.
pub open spec fn key_fingerprint(k: Seq<char>) -> (nat, char, char) {
    (k.len(), k[0], k[k.len() - 1])
}

proof fn lemma_default_key_owner(c: ShortcutCommand)
    ensures
        forall|i: int|
            0 <= i < spec_default_keys(c).len() ==> spec_default_keys(c)[i].len() > 0
                && default_key_owner(key_fingerprint(#[trigger] spec_default_keys(c)[i])) == Some(c),
{
    match c {
        ShortcutCommand::Newline => {
            reveal_strlit("enter");
        },
        ShortcutCommand::DeleteBack => {
            reveal_strlit("backspace");
        },
        ShortcutCommand::Delete => {
            reveal_strlit("delete");
        },
        ShortcutCommand::FocusPrev => {
            reveal_strlit("up");
        },
        ShortcutCommand::FocusNext => {
            reveal_strlit("down");
        },
        ShortcutCommand::MoveLeft => {
            reveal_strlit("left");
        },
        ShortcutCommand::MoveRight => {
            reveal_strlit("right");
        },
        ShortcutCommand::Home => {
            reveal_strlit("home");
        },
        ShortcutCommand::End => {
            reveal_strlit("end");
        },
        ShortcutCommand::SelectLeft => {
            reveal_strlit("shift-left");
        },
        ShortcutCommand::SelectRight => {
            reveal_strlit("shift-right");
        },
        ShortcutCommand::SelectHome => {
            reveal_strlit("shift-home");
        },
        ShortcutCommand::SelectEnd => {
            reveal_strlit("shift-end");
        },
        ShortcutCommand::SelectAll => {
            reveal_strlit("cmd-a");
            reveal_strlit("ctrl-a");
        },
        ShortcutCommand::Copy => {
            reveal_strlit("cmd-c");
            reveal_strlit("ctrl-c");
        },
        ShortcutCommand::Cut => {
            reveal_strlit("cmd-x");
            reveal_strlit("ctrl-x");
        },
        ShortcutCommand::Paste => {
            reveal_strlit("cmd-v");
            reveal_strlit("ctrl-v");
        },
        ShortcutCommand::Undo => {
            reveal_strlit("cmd-z");
            reveal_strlit("ctrl-z");
        },
        ShortcutCommand::BoldSelection => {
            reveal_strlit("cmd-b");
            reveal_strlit("ctrl-b");
        },
        ShortcutCommand::ItalicSelection => {
            reveal_strlit("cmd-i");
            reveal_strlit("ctrl-i");
        },
        ShortcutCommand::UnderlineSelection => {
            reveal_strlit("cmd-u");
            reveal_strlit("ctrl-u");
        },
        ShortcutCommand::CodeSelection => {
            reveal_strlit("cmd-`");
            reveal_strlit("ctrl-`");
        },
        ShortcutCommand::IndentBlock => {
            reveal_strlit("tab");
        },
        ShortcutCommand::OutdentBlock => {
            reveal_strlit("shift-tab");
        },
        ShortcutCommand::ExitCodeBlock => {
            reveal_strlit("cmd-enter");
            reveal_strlit("ctrl-enter");
        },
        ShortcutCommand::SaveDocument => {
            reveal_strlit("cmd-s");
            reveal_strlit("ctrl-s");
        },
        ShortcutCommand::SaveDocumentAs => {
            reveal_strlit("cmd-shift-s");
            reveal_strlit("ctrl-shift-s");
        },
        ShortcutCommand::NewWindow => {
            reveal_strlit("cmd-n");
            reveal_strlit("ctrl-n");
        },
        ShortcutCommand::OpenFile => {
            reveal_strlit("cmd-o");
            reveal_strlit("ctrl-o");
        },
        ShortcutCommand::QuitApplication => {
            reveal_strlit("cmd-q");
            reveal_strlit("ctrl-q");
        },
        ShortcutCommand::DismissTransientUi => {
            reveal_strlit("escape");
        },
    }
}

/// No key is a default of two commands, so the defaults never clash with
/// each other in any context.
pub proof fn law_default_keys_are_disjoint(a: ShortcutCommand, b: ShortcutCommand)
    requires
        a != b,
    ensures
        !keys_overlap(spec_default_keys(a), spec_default_keys(b)),
{
    lemma_default_key_owner(a);
    lemma_default_key_owner(b);
    if keys_overlap(spec_default_keys(a), spec_default_keys(b)) {
        let (x, y) = choose|x: int, y: int|
            0 <= x < spec_default_keys(a).len() && 0 <= y < spec_default_keys(b).len()
                && #[trigger] spec_default_keys(a)[x] == #[trigger] spec_default_keys(b)[y];
        assert(default_key_owner(key_fingerprint(spec_default_keys(a)[x])) == Some(a));
        assert(default_key_owner(key_fingerprint(spec_default_keys(b)[y])) == Some(b));
    }
}

} // verus!
