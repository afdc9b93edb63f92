use vstd::prelude::*;
use crate::lines::{
    is_u16_text, lines_from, next_cmd, parse_u16, spec_clean, split_pieces, LineCursor,
};
use crate::tokenizer::dec_value;
use crate::vm_parser::pieces;

verus! {

/// The two command kinds that the first translator stage distinguishes.
#[derive(Debug, Clone, Copy, PartialEq, Eq, Structural)]
pub enum CommandType {
    CArithmetic,
    CPush,
}

/// A one-piece line is an arithmetic command; anything else is a push.
pub open spec fn command_type_of(cur: Seq<char>) -> CommandType {
    if pieces(cur).len() == 1 {
        CommandType::CArithmetic
    } else {
        CommandType::CPush
    }
}

/// The line parser of the first translator stage.
pub struct Parser {
    cursor: LineCursor,
}

impl Parser {
    pub closed spec fn lines_v(self) -> Seq<Seq<char>> {
        self.cursor.lines_v()
    }

    pub closed spec fn pos_v(self) -> int {
        self.cursor.pos_v()
    }

    pub closed spec fn cur(self) -> Seq<char> {
        self.cursor.cur()
    }

    pub closed spec fn wf(self) -> bool {
        self.cursor.wf()
    }

    pub fn new(buffer: &str) -> (r: Parser)
        ensures
            r.wf(),
            r.lines_v() == lines_from(buffer@, 0),
            r.pos_v() == 0,
            r.cur() == Seq::<char>::empty(),
    {
        Parser { cursor: LineCursor::new(buffer) }
    }

    /// Whether a command line remains at or after the cursor.
    pub fn has_more_commands(&self) -> (r: bool)
        requires
            self.wf(),
        ensures
            r == (next_cmd(self.lines_v(), self.pos_v()) < self.lines_v().len()),
    {
        self.cursor.has_more()
    }

    /// Moves to the next command line and makes its cleaned text current.
    pub fn advance(&mut self)
        requires
            old(self).wf(),
            next_cmd(old(self).lines_v(), old(self).pos_v()) < old(self).lines_v().len(),
        ensures
            final(self).wf(),
            final(self).lines_v() == old(self).lines_v(),
            final(self).pos_v() == next_cmd(old(self).lines_v(), old(self).pos_v()) + 1,
            final(self).cur() == spec_clean(
                old(self).lines_v()[next_cmd(old(self).lines_v(), old(self).pos_v())],
            ),
    {
        self.cursor.advance();
    }

    /// The text of the current command line.
    pub fn current_command(&self) -> (r: &String)
        ensures
            r@ == self.cur(),
    {
        self.cursor.current_line()
    }

    /// The kind of the current command.
    pub fn command_type(&self) -> (r: CommandType)
        ensures
            r == command_type_of(self.cur()),
    {
        let ps = split_pieces(self.cursor.current_line(), ' ');
        if ps.len() == 1 {
            CommandType::CArithmetic
        } else {
            CommandType::CPush
        }
    }

    /// The first argument: the whole command for an arithmetic command, else
    /// the second piece.
    pub fn arg1(&self) -> (r: String)
        requires
            command_type_of(self.cur()) != CommandType::CArithmetic ==> pieces(self.cur()).len()
                >= 2,
        ensures
            command_type_of(self.cur()) == CommandType::CArithmetic ==> r@ == pieces(self.cur())[0],
            command_type_of(self.cur()) != CommandType::CArithmetic ==> r@ == pieces(self.cur())[1],
    {
        let ps = split_pieces(self.cursor.current_line(), ' ');
        if ps.len() == 1 {
            ps[0].clone()
        } else {
            ps[1].clone()
        }
    }

    /// The third piece of the current command, read as a number.
    pub fn arg2(&self) -> (r: u16)
        requires
            pieces(self.cur()).len() >= 3,
            is_u16_text(pieces(self.cur())[2]),
        ensures
            r == dec_value(pieces(self.cur())[2]),
    {
        let ps = split_pieces(self.cursor.current_line(), ' ');
        match parse_u16(&ps[2]) {
            Some(n) => n,
            None => 0,  // unreachable under the precondition
        }
    }
}

} // verus!
