use vstd::prelude::*;
use crate::strutil::{chars_of, chars_to_string};
use crate::tokenizer::is_space;

verus! {

/// The first position at or after `i` holding the given character, or the
/// end of the text.
pub open spec fn find_from(s: Seq<char>, i: int, c: char) -> int
    decreases s.len() - i,
    when 0 <= i <= s.len()
{
    if i == s.len() || s[i] == c {
        i
    } else {
        find_from(s, i + 1, c)
    }
}

pub proof fn lemma_find_from(s: Seq<char>, i: int, c: char)
    requires
        0 <= i <= s.len(),
    ensures
        i <= find_from(s, i, c) <= s.len(),
    decreases s.len() - i,
{
    if !(i == s.len() || s[i] == c) {
        lemma_find_from(s, i + 1, c);
    }
}

/// The first position at or after `i` that is not whitespace.
pub open spec fn skip_spaces(s: Seq<char>, i: int) -> int
    decreases s.len() - i,
    when 0 <= i <= s.len()
{
    if i == s.len() || !is_space(s[i]) {
        i
    } else {
        skip_spaces(s, i + 1)
    }
}

/// The position just past the last non-whitespace character before `j`.
pub open spec fn rskip_spaces(s: Seq<char>, j: int) -> int
    decreases j,
    when 0 <= j <= s.len()
{
    if j == 0 || !is_space(s[j - 1]) {
        j
    } else {
        rskip_spaces(s, j - 1)
    }
}

/// The line with a `/`-led comment cut off and surrounding whitespace
/// trimmed: the text of one command.
pub open spec fn spec_clean(s: Seq<char>) -> Seq<char> {
    let e = find_from(s, 0, '/');
    let a = skip_spaces(s, 0);
    if a >= e {
        Seq::empty()
    } else {
        s.subrange(a, rskip_spaces(s, e))
    }
}

/// The lines of the text from position `i` on, split at newlines.
pub open spec fn lines_from(s: Seq<char>, i: int) -> Seq<Seq<char>>
    decreases s.len() - i,
    when 0 <= i <= s.len()
    via lines_from_dec
{
    let k = find_from(s, i, '\n');
    if k == s.len() {
        seq![s.subrange(i, k)]
    } else {
        seq![s.subrange(i, k)] + lines_from(s, k + 1)
    }
}

#[via_fn]
proof fn lines_from_dec(s: Seq<char>, i: int) {
    lemma_find_from(s, i, '\n');
}

/// The index of the first line at or after `p` that still holds a command
/// after cleaning, or the number of lines when none does.
pub open spec fn next_cmd(ls: Seq<Seq<char>>, p: int) -> int
    decreases ls.len() - p,
    when 0 <= p <= ls.len()
{
    if p == ls.len() || spec_clean(ls[p]) != Seq::<char>::empty() {
        p
    } else {
        next_cmd(ls, p + 1)
    }
}

pub proof fn lemma_next_cmd(ls: Seq<Seq<char>>, p: int)
    requires
        0 <= p <= ls.len(),
    ensures
        p <= next_cmd(ls, p) <= ls.len(),
        next_cmd(ls, p) < ls.len() ==> spec_clean(ls[next_cmd(ls, p)]) != Seq::<char>::empty(),
    decreases ls.len() - p,
{
    if !(p == ls.len() || spec_clean(ls[p]) != Seq::<char>::empty()) {
        lemma_next_cmd(ls, p + 1);
    }
}

/// The text of a line span, as a string.
pub fn string_of_range(v: &Vec<char>, a: usize, b: usize) -> (r: String)
    requires
        a <= b <= v.len(),
    ensures
        r@ == v@.subrange(a as int, b as int),
{
    let mut cs: Vec<char> = Vec::new();
    let mut i = a;
    while i < b
        invariant
            a <= i <= b <= v.len(),
            cs@ == v@.subrange(a as int, i as int),
        decreases b - i,
    {
        cs.push(v[i]);
        i = i + 1;
        proof {
            assert(cs@ =~= v@.subrange(a as int, i as int));
        }
    }
    proof {
        assert(cs@ =~= v@.subrange(a as int, b as int));
    }
    chars_to_string(&cs)
}

/// Cuts the comment off one line and trims it.
#[verifier::loop_isolation(false)]
pub fn clean_line(line: &String) -> (r: String)
    ensures
        r@ == spec_clean(line@),
{
    let v = chars_of(line.as_str());
    let ghost s = line@;
    let mut e: usize = 0;
    while e < v.len() && v[e] != '/'
        invariant
            0 <= e <= v.len(),
            find_from(s, 0, '/') == find_from(s, e as int, '/'),
        decreases v.len() - e,
    {
        e = e + 1;
    }
    proof {
        assert(find_from(s, e as int, '/') == e);
    }
    let mut a: usize = 0;
    while a < v.len() && is_space_x(v[a])
        invariant
            0 <= a <= v.len(),
            skip_spaces(s, 0) == skip_spaces(s, a as int),
        decreases v.len() - a,
    {
        a = a + 1;
    }
    proof {
        assert(skip_spaces(s, a as int) == a);
    }
    if a >= e {
        let r = String::new();
        return r;
    }
    proof {
        assert(!is_space(s[a as int]));
    }
    let mut b: usize = e;
    while b > a && is_space_x(v[b - 1])
        invariant
            a < b <= e,
            rskip_spaces(s, e as int) == rskip_spaces(s, b as int),
        decreases b,
    {
        b = b - 1;
    }
    proof {
        assert(rskip_spaces(s, b as int) == b);
    }
    string_of_range(&v, a, b)
}

fn is_space_x(c: char) -> (r: bool)
    ensures
        r == is_space(c),
{
    c == ' ' || c == '\t' || c == '\n' || c == '\r'
}

/// The pieces of the text from position `i` on, split at each occurrence of
/// the separator.
pub open spec fn pieces_from(s: Seq<char>, i: int, c: char) -> Seq<Seq<char>>
    decreases s.len() - i,
    when 0 <= i <= s.len()
    via pieces_from_dec
{
    let k = find_from(s, i, c);
    if k == s.len() {
        seq![s.subrange(i, k)]
    } else {
        seq![s.subrange(i, k)] + pieces_from(s, k + 1, c)
    }
}

#[via_fn]
proof fn pieces_from_dec(s: Seq<char>, i: int, c: char) {
    lemma_find_from(s, i, c);
}

/// Splits a text at each occurrence of the separator, keeping empty pieces.
#[verifier::loop_isolation(false)]
pub fn split_pieces(text: &String, sep: char) -> (r: Vec<String>)
    ensures
        Seq::new(r@.len(), |i: int| r@[i]@) == pieces_from(text@, 0, sep),
{
    let v = chars_of(text.as_str());
    let ghost s = text@;
    let mut pieces: Vec<String> = Vec::new();
    let mut start: usize = 0;
    proof {
        assert(pieces_from(s, 0, sep) =~= Seq::new(pieces@.len(), |i: int| pieces@[i]@)
            + pieces_from(s, 0, sep));
    }
    loop
        invariant
            0 <= start <= v.len(),
            pieces_from(s, 0, sep) == Seq::new(pieces@.len(), |i: int| pieces@[i]@) + pieces_from(
                s,
                start as int,
                sep,
            ),
        decreases v.len() - start,
    {
        let ghost built0 = Seq::new(pieces@.len(), |i: int| pieces@[i]@);
        let mut k = start;
        while k < v.len() && v[k] != sep
            invariant
                start <= k <= v.len(),
                find_from(s, start as int, sep) == find_from(s, k as int, sep),
            decreases v.len() - k,
        {
            k = k + 1;
        }
        proof {
            assert(find_from(s, k as int, sep) == k);
        }
        let piece = string_of_range(&v, start, k);
        pieces.push(piece);
        proof {
            let built1 = Seq::new(pieces@.len(), |i: int| pieces@[i]@);
            let pc = s.subrange(start as int, k as int);
            assert(built1 =~= built0.push(pc));
            if k < v.len() {
                assert(pieces_from(s, start as int, sep) == seq![pc] + pieces_from(s, k + 1, sep));
                assert(built0 + (seq![pc] + pieces_from(s, k + 1, sep)) =~= built1 + pieces_from(
                    s,
                    k + 1,
                    sep,
                ));
            } else {
                assert(pieces_from(s, start as int, sep) == seq![pc]);
                assert(built0 + seq![pc] =~= built1);
            }
        }
        if k == v.len() {
            proof {
                assert(pieces_from(s, 0, sep) =~= Seq::new(pieces@.len(), |i: int| pieces@[i]@));
            }
            break ;
        }
        start = k + 1;
    }
    pieces
}

/// Whether a text spells an unsigned 16-bit decimal number.
pub open spec fn is_u16_text(t: Seq<char>) -> bool {
    &&& t.len() > 0
    &&& (forall|k: int| 0 <= k < t.len() ==> crate::tokenizer::is_digit(#[trigger] t[k]))
    &&& crate::tokenizer::dec_value(t) <= 65535
}

/// Reads a decimal number that fits in 16 bits, or nothing.
#[verifier::loop_isolation(false)]
pub fn parse_u16(text: &String) -> (r: Option<u16>)
    ensures
        (r matches Some(n) ==> is_u16_text(text@) && n == crate::tokenizer::dec_value(text@)),
        r is None ==> !is_u16_text(text@),
{
    let v = chars_of(text.as_str());
    let ghost t = text@;
    if v.len() == 0 {
        return None;
    }
    let mut val: u32 = 0;
    let mut k: usize = 0;
    proof {
        assert(t.subrange(0, 0) =~= Seq::<char>::empty());
    }
    while k < v.len()
        invariant
            0 <= k <= v.len(),
            forall|x: int| 0 <= x < k ==> crate::tokenizer::is_digit(#[trigger] t[x]),
            val == crate::tokenizer::dec_value(t.subrange(0, k as int)),
            val <= 65535,
        decreases v.len() - k,
    {
        let c = v[k];
        let u = c as u32;
        if !(48 <= u && u <= 57) {
            return None;
        }
        proof {
            assert(t.subrange(0, k + 1).drop_last() =~= t.subrange(0, k as int));
            assert(t.subrange(0, k + 1).last() == t[k as int]);
        }
        let next = val * 10 + (u - 48);
        if next > 65535 {
            proof {
                if forall|x: int| 0 <= x < t.len() ==> crate::tokenizer::is_digit(#[trigger] t[x]) {
                    crate::tokenizer::lemma_dec_value_prefix(t, k + 1);
                }
            }
            return None;
        }
        val = next;
        k = k + 1;
    }
    proof {
        assert(t.subrange(0, t.len() as int) =~= t);
    }
    Some(val as u16)
}

/// A cursor over the lines of a text: `advance` finds the next line that
/// still holds a command after comment stripping and trimming, and makes its
/// cleaned text current.
pub struct LineCursor {
    lines: Vec<String>,
    pos: usize,
    current: String,
}

impl LineCursor {
    pub closed spec fn lines_v(self) -> Seq<Seq<char>> {
        Seq::new(self.lines@.len(), |i: int| self.lines@[i]@)
    }

    pub closed spec fn pos_v(self) -> int {
        self.pos as int
    }

    pub closed spec fn cur(self) -> Seq<char> {
        self.current@
    }

    pub open spec fn wf(self) -> bool {
        0 <= self.pos_v() <= self.lines_v().len()
    }

    /// Splits the text into its lines; the cursor starts before the first
    /// command with an empty current line.
    #[verifier::loop_isolation(false)]
    pub fn new(buffer: &str) -> (r: LineCursor)
        ensures
            r.wf(),
            r.lines_v() == lines_from(buffer@, 0),
            r.pos_v() == 0,
            r.cur() == Seq::<char>::empty(),
    {
        let v = chars_of(buffer);
        let ghost s = buffer@;
        let mut lines: Vec<String> = Vec::new();
        let mut start: usize = 0;
        proof {
            assert(lines_from(s, 0) =~= Seq::new(lines@.len(), |i: int| lines@[i]@) + lines_from(
                s,
                0,
            ));
        }
        loop
            invariant
                0 <= start <= v.len(),
                lines_from(s, 0) == Seq::new(lines@.len(), |i: int| lines@[i]@) + lines_from(
                    s,
                    start as int,
                ),
            decreases v.len() - start,
        {
            let ghost built0 = Seq::new(lines@.len(), |i: int| lines@[i]@);
            let mut k = start;
            while k < v.len() && v[k] != '\n'
                invariant
                    start <= k <= v.len(),
                    find_from(s, start as int, '\n') == find_from(s, k as int, '\n'),
                decreases v.len() - k,
            {
                k = k + 1;
            }
            proof {
                assert(find_from(s, k as int, '\n') == k);
            }
            let piece = string_of_range(&v, start, k);
            lines.push(piece);
            proof {
                let built1 = Seq::new(lines@.len(), |i: int| lines@[i]@);
                let pc = s.subrange(start as int, k as int);
                assert(built1 =~= built0.push(pc));
                if k < v.len() {
                    assert(lines_from(s, start as int) == seq![pc] + lines_from(s, k + 1));
                    assert(built0 + (seq![pc] + lines_from(s, k + 1)) =~= built1 + lines_from(
                        s,
                        k + 1,
                    ));
                } else {
                    assert(lines_from(s, start as int) == seq![pc]);
                    assert(built0 + seq![pc] =~= built1);
                }
            }
            if k == v.len() {
                proof {
                    assert(lines_from(s, 0) =~= Seq::new(lines@.len(), |i: int| lines@[i]@));
                }
                break ;
            }
            start = k + 1;
        }
        let r = LineCursor { lines, pos: 0, current: String::new() };
        proof {
            assert(r.lines_v() =~= lines_from(buffer@, 0));
        }
        r
    }

    /// Whether a command line remains at or after the cursor.
    #[verifier::loop_isolation(false)]
    pub fn has_more(&self) -> (r: bool)
        requires
            self.wf(),
        ensures
            r == (next_cmd(self.lines_v(), self.pos_v()) < self.lines_v().len()),
    {
        let mut i = self.pos;
        while i < self.lines.len()
            invariant
                self.pos <= i <= self.lines.len(),
                next_cmd(self.lines_v(), self.pos_v()) == next_cmd(self.lines_v(), i as int),
            decreases self.lines.len() - i,
        {
            let cl = clean_line(&self.lines[i]);
            if !cl.as_str().is_empty() {
                proof {
                    assert(spec_clean(self.lines_v()[i as int]).len() > 0);
                    assert(next_cmd(self.lines_v(), i as int) == i);
                }
                return true;
            }
            proof {
                assert(spec_clean(self.lines_v()[i as int]) =~= Seq::<char>::empty());
            }
            i = i + 1;
        }
        proof {
            assert(next_cmd(self.lines_v(), i as int) == i);
        }
        false
    }

    /// Moves to the next command line and makes its cleaned text current.
    #[verifier::loop_isolation(false)]
    pub fn advance(&mut self)
        requires
            old(self).wf(),
            next_cmd(old(self).lines_v(), old(self).pos_v()) < old(self).lines_v().len(),
        ensures
            final(self).wf(),
            final(self).lines_v() == old(self).lines_v(),
            final(self).pos_v() == next_cmd(old(self).lines_v(), old(self).pos_v()) + 1,
            final(self).cur() == spec_clean(
                old(self).lines_v()[next_cmd(old(self).lines_v(), old(self).pos_v())],
            ),
    {
        let ghost ls = self.lines_v();
        let ghost p0 = self.pos_v();
        let mut i = self.pos;
        while i < self.lines.len()
            invariant
                *self == *old(self),
                p0 <= i <= self.lines.len(),
                next_cmd(ls, p0) == next_cmd(ls, i as int),
            decreases self.lines.len() - i,
        {
            let cl = clean_line(&self.lines[i]);
            if !cl.as_str().is_empty() {
                proof {
                    assert(spec_clean(ls[i as int]).len() > 0);
                    assert(next_cmd(ls, i as int) == i);
                }
                self.current = cl;
                self.pos = i + 1;
                return ;
            }
            proof {
                assert(spec_clean(ls[i as int]) =~= Seq::<char>::empty());
            }
            i = i + 1;
        }
        proof {
            assert(next_cmd(ls, i as int) == i);
            assert(false);
        }
    }

    /// The cleaned text of the current command line.
    pub fn current_line(&self) -> (r: &String)
        ensures
            r@ == self.cur(),
    {
        &self.current
    }
}

} // verus!
