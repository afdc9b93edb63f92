use vstd::prelude::*;
use crate::lines::{
    is_u16_text, lines_from, next_cmd, parse_u16, pieces_from, spec_clean, split_pieces, LineCursor,
};
use crate::strutil::str_eq;
use crate::tokenizer::dec_value;

verus! {

/// The command kinds of the stack-machine language, as its translator sees
/// them.
#[derive(Debug, Clone, Copy, PartialEq, Eq, Structural)]
pub enum CommandType {
    CArithmetic,
    CPush,
    CPop,
    CLabel,
    CGoto,
    CIf,
    CFunction,
    CReturn,
    CCall,
}

/// The space-separated pieces of a command line.
pub open spec fn pieces(cur: Seq<char>) -> Seq<Seq<char>> {
    pieces_from(cur, 0, ' ')
}

/// The command kind of a line, decided by its piece count and leading word:
/// one piece is `return` or an arithmetic command, two pieces are the
/// control-flow commands, three pieces are the memory and call commands. Any
/// other piece count has no kind.
pub open spec fn command_type_of(cur: Seq<char>) -> Option<CommandType> {
    let ps = pieces(cur);
    if ps.len() == 1 {
        if ps[0] == "return"@ {
            Some(CommandType::CReturn)
        } else {
            Some(CommandType::CArithmetic)
        }
    } else if ps.len() == 2 {
        if ps[0] == "label"@ {
            Some(CommandType::CLabel)
        } else if ps[0] == "goto"@ {
            Some(CommandType::CGoto)
        } else {
            Some(CommandType::CIf)
        }
    } else if ps.len() == 3 {
        if ps[0] == "push"@ {
            Some(CommandType::CPush)
        } else if ps[0] == "pop"@ {
            Some(CommandType::CPop)
        } else if ps[0] == "function"@ {
            Some(CommandType::CFunction)
        } else {
            Some(CommandType::CCall)
        }
    } else {
        None
    }
}

/// The line parser of the stack-machine translator: it walks the command
/// lines of one source text and takes the current command apart into its
/// kind and arguments.
pub struct Parser {
    cursor: LineCursor,
}

impl Parser {
    pub closed spec fn lines_v(self) -> Seq<Seq<char>> {
        self.cursor.lines_v()
    }

    pub closed spec fn pos_v(self) -> int {
        self.cursor.pos_v()
    }

    pub closed spec fn cur(self) -> Seq<char> {
        self.cursor.cur()
    }

    pub closed spec fn wf(self) -> bool {
        self.cursor.wf()
    }

    pub fn new(buffer: &str) -> (r: Parser)
        ensures
            r.wf(),
            r.lines_v() == lines_from(buffer@, 0),
            r.pos_v() == 0,
            r.cur() == Seq::<char>::empty(),
    {
        Parser { cursor: LineCursor::new(buffer) }
    }

    /// Whether a command line remains at or after the cursor.
    pub fn has_more_commands(&self) -> (r: bool)
        requires
            self.wf(),
        ensures
            r == (next_cmd(self.lines_v(), self.pos_v()) < self.lines_v().len()),
    {
        self.cursor.has_more()
    }

    /// Moves to the next command line and makes its cleaned text current.
    pub fn advance(&mut self)
        requires
            old(self).wf(),
            next_cmd(old(self).lines_v(), old(self).pos_v()) < old(self).lines_v().len(),
        ensures
            final(self).wf(),
            final(self).lines_v() == old(self).lines_v(),
            final(self).pos_v() == next_cmd(old(self).lines_v(), old(self).pos_v()) + 1,
            final(self).cur() == spec_clean(
                old(self).lines_v()[next_cmd(old(self).lines_v(), old(self).pos_v())],
            ),
    {
        self.cursor.advance();
    }

    /// The text of the current command line.
    pub fn current_command(&self) -> (r: &String)
        ensures
            r@ == self.cur(),
    {
        self.cursor.current_line()
    }

    /// The kind of the current command.
    pub fn command_type(&self) -> (r: CommandType)
        requires
            command_type_of(self.cur()) is Some,
        ensures
            command_type_of(self.cur()) == Some(r),
    {
        let ps = split_pieces(self.cursor.current_line(), ' ');
        if ps.len() == 1 {
            if str_eq(ps[0].as_str(), "return") {
                CommandType::CReturn
            } else {
                CommandType::CArithmetic
            }
        } else if ps.len() == 2 {
            if str_eq(ps[0].as_str(), "label") {
                CommandType::CLabel
            } else if str_eq(ps[0].as_str(), "goto") {
                CommandType::CGoto
            } else {
                CommandType::CIf
            }
        } else {
            if str_eq(ps[0].as_str(), "push") {
                CommandType::CPush
            } else if str_eq(ps[0].as_str(), "pop") {
                CommandType::CPop
            } else if str_eq(ps[0].as_str(), "function") {
                CommandType::CFunction
            } else {
                CommandType::CCall
            }
        }
    }

    /// The first argument: the whole command for an arithmetic command, else
    /// the second piece.
    pub fn arg1(&self) -> (r: String)
        requires
            command_type_of(self.cur()) is Some,
            command_type_of(self.cur()) != Some(CommandType::CReturn),
        ensures
            command_type_of(self.cur()) == Some(CommandType::CArithmetic) ==> r@ == pieces(
                self.cur(),
            )[0],
            command_type_of(self.cur()) != Some(CommandType::CArithmetic) ==> r@ == pieces(
                self.cur(),
            )[1],
    {
        let ps = split_pieces(self.cursor.current_line(), ' ');
        if ps.len() == 1 {
            ps[0].clone()
        } else {
            ps[1].clone()
        }
    }

    /// The second argument of a memory or call command, read as a number.
    pub fn arg2(&self) -> (r: u16)
        requires
            pieces(self.cur()).len() == 3,
            is_u16_text(pieces(self.cur())[2]),
        ensures
            r == dec_value(pieces(self.cur())[2]),
    {
        let ps = split_pieces(self.cursor.current_line(), ' ');
        match parse_u16(&ps[2]) {
            Some(n) => n,
            None => 0,  // unreachable under the precondition
        }
    }
}

} // verus!
