use vstd::prelude::*;
use crate::lines::{find_from, lines_from, next_cmd, spec_clean, string_of_range, LineCursor};
use crate::strutil::chars_of;

verus! {

/// The three command shapes of the register-machine assembly: an address
/// load, a computation, and a label declaration.
#[derive(Debug, Clone, Copy, PartialEq, Eq, Structural)]
pub enum CommandType {
    ACommand,
    CCommand,
    LCommand,
}

/// The command shape of a cleaned line: `@` leads an address load, `(` leads
/// a label declaration, anything else is a computation.
pub open spec fn command_type_of(cur: Seq<char>) -> CommandType {
    if cur.len() > 0 && cur[0] == '@' {
        CommandType::ACommand
    } else if cur.len() > 0 && cur[0] == '(' {
        CommandType::LCommand
    } else {
        CommandType::CCommand
    }
}

/// The first position at or after `i` that does not hold `c`.
pub open spec fn skip_char(s: Seq<char>, i: int, c: char) -> int
    decreases s.len() - i,
    when 0 <= i <= s.len()
{
    if i == s.len() || s[i] != c {
        i
    } else {
        skip_char(s, i + 1, c)
    }
}

/// The position just past the last character before `j` that is not `c`.
pub open spec fn rskip_char(s: Seq<char>, j: int, c: char) -> int
    decreases j,
    when 0 <= j <= s.len()
{
    if j == 0 || s[j - 1] != c {
        j
    } else {
        rskip_char(s, j - 1, c)
    }
}

/// The symbol of a label declaration: the line with every leading `(` and
/// trailing `)` removed.
pub open spec fn l_symbol_text(cur: Seq<char>) -> Seq<char> {
    let a = skip_char(cur, 0, '(');
    let b = rskip_char(cur, cur.len() as int, ')');
    if a >= cur.len() || b <= a {
        Seq::empty()
    } else {
        cur.subrange(a, b)
    }
}

/// The destination part of a computation: what stands before the first `=`,
/// when there is one.
pub open spec fn dest_text(cur: Seq<char>) -> Option<Seq<char>> {
    let e = find_from(cur, 0, '=');
    if e < cur.len() {
        Some(cur.subrange(0, e))
    } else {
        None
    }
}

/// Where the computation part starts: after the first `=`, or at the start.
pub open spec fn comp_start(cur: Seq<char>) -> int {
    let e = find_from(cur, 0, '=');
    if e < cur.len() {
        e + 1
    } else {
        0
    }
}

/// Where the computation part ends: at the next `=` or `;`, whichever comes
/// first, or at the end of the line.
pub open spec fn comp_end(cur: Seq<char>) -> int {
    let e2 = find_from(cur, comp_start(cur), '=');
    let e3 = find_from(cur, comp_start(cur), ';');
    if e3 < e2 {
        e3
    } else {
        e2
    }
}

/// The computation part of a command.
pub open spec fn comp_text(cur: Seq<char>) -> Seq<char> {
    cur.subrange(comp_start(cur), comp_end(cur))
}

/// The jump part of a computation: what stands between the first `;` and the
/// next `;` or the end, when a `;` is present.
pub open spec fn jump_text(cur: Seq<char>) -> Option<Seq<char>> {
    let e = find_from(cur, 0, ';');
    if e < cur.len() {
        Some(cur.subrange(e + 1, find_from(cur, e + 1, ';')))
    } else {
        None
    }
}

/// The line parser of the assembler: it walks the command lines of one
/// source text, skipping blank lines and comments, and takes the current
/// command apart into its fields.
pub struct Parser {
    cursor: LineCursor,
}

impl Parser {
    pub closed spec fn lines_v(self) -> Seq<Seq<char>> {
        self.cursor.lines_v()
    }

    pub closed spec fn pos_v(self) -> int {
        self.cursor.pos_v()
    }

    pub closed spec fn cur(self) -> Seq<char> {
        self.cursor.cur()
    }

    pub closed spec fn wf(self) -> bool {
        self.cursor.wf()
    }

    pub fn new(buffer: &str) -> (r: Parser)
        ensures
            r.wf(),
            r.lines_v() == lines_from(buffer@, 0),
            r.pos_v() == 0,
            r.cur() == Seq::<char>::empty(),
    {
        Parser { cursor: LineCursor::new(buffer) }
    }

    /// Whether a command line remains at or after the cursor. A line whose
    /// text begins with a slash holds no command, matching what `advance`
    /// skips: the two readings agree here, where a whole-line check and a
    /// skip-and-clean pass could otherwise drift apart.
    pub fn has_more_commands(&self) -> (r: bool)
        requires
            self.wf(),
        ensures
            r == (next_cmd(self.lines_v(), self.pos_v()) < self.lines_v().len()),
    {
        self.cursor.has_more()
    }

    /// Moves to the next command line and makes its cleaned text current.
    pub fn advance(&mut self)
        requires
            old(self).wf(),
            next_cmd(old(self).lines_v(), old(self).pos_v()) < old(self).lines_v().len(),
        ensures
            final(self).wf(),
            final(self).lines_v() == old(self).lines_v(),
            final(self).pos_v() == next_cmd(old(self).lines_v(), old(self).pos_v()) + 1,
            final(self).cur() == spec_clean(
                old(self).lines_v()[next_cmd(old(self).lines_v(), old(self).pos_v())],
            ),
    {
        self.cursor.advance();
    }

    /// The shape of the current command.
    pub fn command_type(&self) -> (r: CommandType)
        ensures
            r == command_type_of(self.cur()),
    {
        let v = chars_of(self.cursor.current_line().as_str());
        if v.len() > 0 && v[0] == '@' {
            CommandType::ACommand
        } else if v.len() > 0 && v[0] == '(' {
            CommandType::LCommand
        } else {
            CommandType::CCommand
        }
    }

    /// The symbol of an address load or of a label declaration.
    #[verifier::loop_isolation(false)]
    pub fn symbol(&self) -> (r: String)
        requires
            command_type_of(self.cur()) != CommandType::CCommand,
        ensures
            command_type_of(self.cur()) == CommandType::ACommand ==> r@ == self.cur().subrange(
                1,
                self.cur().len() as int,
            ),
            command_type_of(self.cur()) == CommandType::LCommand ==> r@ == l_symbol_text(
                self.cur(),
            ),
    {
        let v = chars_of(self.cursor.current_line().as_str());
        let ghost s = self.cur();
        if v[0] == '@' {
            string_of_range(&v, 1, v.len())
        } else {
            let mut a: usize = 0;
            while a < v.len() && v[a] == '('
                invariant
                    0 <= a <= v.len(),
                    skip_char(s, 0, '(') == skip_char(s, a as int, '('),
                decreases v.len() - a,
            {
                a = a + 1;
            }
            proof {
                assert(skip_char(s, a as int, '(') == a);
            }
            let mut b: usize = v.len();
            while b > 0 && v[b - 1] == ')'
                invariant
                    0 <= b <= v.len(),
                    rskip_char(s, s.len() as int, ')') == rskip_char(s, b as int, ')'),
                decreases b,
            {
                b = b - 1;
            }
            proof {
                assert(rskip_char(s, b as int, ')') == b);
            }
            if a >= v.len() || b <= a {
                String::new()
            } else {
                string_of_range(&v, a, b)
            }
        }
    }

    /// The destination field, when the command has one.
    #[verifier::loop_isolation(false)]
    pub fn dest(&self) -> (r: Option<String>)
        ensures
            (r matches Some(t) ==> dest_text(self.cur()) == Some(t@)),
            r is None ==> dest_text(self.cur()) is None,
    {
        let v = chars_of(self.cursor.current_line().as_str());
        let ghost s = self.cur();
        let mut e: usize = 0;
        while e < v.len() && v[e] != '='
            invariant
                0 <= e <= v.len(),
                find_from(s, 0, '=') == find_from(s, e as int, '='),
            decreases v.len() - e,
        {
            e = e + 1;
        }
        proof {
            assert(find_from(s, e as int, '=') == e);
        }
        if e < v.len() {
            Some(string_of_range(&v, 0, e))
        } else {
            None
        }
    }

    /// The computation field.
    #[verifier::loop_isolation(false)]
    pub fn comp(&self) -> (r: String)
        ensures
            r@ == comp_text(self.cur()),
    {
        let v = chars_of(self.cursor.current_line().as_str());
        let ghost s = self.cur();
        let mut e: usize = 0;
        while e < v.len() && v[e] != '='
            invariant
                0 <= e <= v.len(),
                find_from(s, 0, '=') == find_from(s, e as int, '='),
            decreases v.len() - e,
        {
            e = e + 1;
        }
        proof {
            assert(find_from(s, e as int, '=') == e);
        }
        let start: usize = if e < v.len() {
            e + 1
        } else {
            0
        };
        let mut e2 = start;
        while e2 < v.len() && v[e2] != '='
            invariant
                start <= e2 <= v.len(),
                find_from(s, start as int, '=') == find_from(s, e2 as int, '='),
            decreases v.len() - e2,
        {
            e2 = e2 + 1;
        }
        proof {
            assert(find_from(s, e2 as int, '=') == e2);
        }
        let mut e3 = start;
        while e3 < v.len() && v[e3] != ';'
            invariant
                start <= e3 <= v.len(),
                find_from(s, start as int, ';') == find_from(s, e3 as int, ';'),
            decreases v.len() - e3,
        {
            e3 = e3 + 1;
        }
        proof {
            assert(find_from(s, e3 as int, ';') == e3);
        }
        let stop = if e3 < e2 {
            e3
        } else {
            e2
        };
        string_of_range(&v, start, stop)
    }

    /// The jump field, when the command has one.
    #[verifier::loop_isolation(false)]
    pub fn jump(&self) -> (r: Option<String>)
        ensures
            (r matches Some(t) ==> jump_text(self.cur()) == Some(t@)),
            r is None ==> jump_text(self.cur()) is None,
    {
        let v = chars_of(self.cursor.current_line().as_str());
        let ghost s = self.cur();
        let mut e: usize = 0;
        while e < v.len() && v[e] != ';'
            invariant
                0 <= e <= v.len(),
                find_from(s, 0, ';') == find_from(s, e as int, ';'),
            decreases v.len() - e,
        {
            e = e + 1;
        }
        proof {
            assert(find_from(s, e as int, ';') == e);
        }
        if e >= v.len() {
            return None;
        }
        let start = e + 1;
        let mut e2 = start;
        while e2 < v.len() && v[e2] != ';'
            invariant
                start <= e2 <= v.len(),
                find_from(s, start as int, ';') == find_from(s, e2 as int, ';'),
            decreases v.len() - e2,
        {
            e2 = e2 + 1;
        }
        proof {
            assert(find_from(s, e2 as int, ';') == e2);
        }
        Some(string_of_range(&v, start, e2))
    }
}

} // verus!
