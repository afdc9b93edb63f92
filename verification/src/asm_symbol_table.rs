use vstd::prelude::*;

verus! {

/// The name-to-address map described by an association list, later entries
/// overriding earlier ones.
pub open spec fn addr_map(s: Seq<(String, u16)>) -> Map<Seq<char>, u16>
    decreases s.len(),
{
    if s.len() == 0 {
        Map::empty()
    } else {
        addr_map(s.drop_last()).insert(s.last().0@, s.last().1)
    }
}

/// No two entries share a name.
pub open spec fn addr_distinct(s: Seq<(String, u16)>) -> bool {
    forall|i: int, j: int| 0 <= i < j < s.len() ==> s[i].0@ != s[j].0@
}

proof fn lemma_addr_index(s: Seq<(String, u16)>, i: int)
    requires
        addr_distinct(s),
        0 <= i < s.len(),
    ensures
        addr_map(s).contains_key(s[i].0@),
        addr_map(s)[s[i].0@] == s[i].1,
    decreases s.len(),
{
    if i < s.len() - 1 {
        assert(addr_distinct(s.drop_last())) by {
            assert(forall|x: int, y: int|
                0 <= x < y < s.drop_last().len() ==> s.drop_last()[x].0@ != s.drop_last()[y].0@);
        }
        lemma_addr_index(s.drop_last(), i);
        assert(s.last().0@ != s[i].0@);
    }
}

proof fn lemma_addr_absent(s: Seq<(String, u16)>, k: Seq<char>)
    requires
        forall|i: int| 0 <= i < s.len() ==> s[i].0@ != k,
    ensures
        !addr_map(s).contains_key(k),
    decreases s.len(),
{
    if s.len() > 0 {
        lemma_addr_absent(s.drop_last(), k);
    }
}

proof fn lemma_addr_update(s: Seq<(String, u16)>, i: int, p: (String, u16))
    requires
        addr_distinct(s),
        0 <= i < s.len(),
        p.0@ == s[i].0@,
    ensures
        addr_map(s.update(i, p)) =~= addr_map(s).insert(p.0@, p.1),
        addr_distinct(s.update(i, p)),
    decreases s.len(),
{
    let t = s.update(i, p);
    assert(addr_distinct(t)) by {
        assert(forall|x: int, y: int| 0 <= x < y < t.len() ==> t[x].0@ != t[y].0@) by {
            assert(forall|x: int| 0 <= x < t.len() ==> t[x].0@ == s[x].0@);
        }
    }
    if i == s.len() - 1 {
        assert(t.drop_last() =~= s.drop_last());
    } else {
        assert(t.drop_last() =~= s.drop_last().update(i, p));
        assert(addr_distinct(s.drop_last())) by {
            assert(forall|x: int, y: int|
                0 <= x < y < s.drop_last().len() ==> s.drop_last()[x].0@ != s.drop_last()[y].0@);
        }
        lemma_addr_update(s.drop_last(), i, p);
        assert(s.last().0@ != p.0@);
        assert(t.last() == s.last());
    }
}

/// The assembler's symbol table: a map from symbol name to memory or
/// instruction address, last write winning.
pub struct SymbolTable {
    entries: Vec<(String, u16)>,
}

impl SymbolTable {
    /// The symbols and their addresses.
    pub closed spec fn map(self) -> Map<Seq<char>, u16> {
        addr_map(self.entries@)
    }

    pub closed spec fn wf(self) -> bool {
        addr_distinct(self.entries@)
    }

    pub fn new() -> (r: SymbolTable)
        ensures
            r.wf(),
            r.map() == Map::<Seq<char>, u16>::empty(),
    {
        SymbolTable { entries: Vec::new() }
    }

    fn find(&self, symbol: &str) -> (r: Option<usize>)
        requires
            self.wf(),
        ensures
            (r matches Some(i) ==> i < self.entries@.len() && self.entries@[i as int].0@
                == symbol@),
            r is None ==> !self.map().contains_key(symbol@),
    {
        let mut i: usize = 0;
        while i < self.entries.len()
            invariant
                self.wf(),
                i <= self.entries.len(),
                forall|j: int| 0 <= j < i ==> self.entries@[j].0@ != symbol@,
            decreases self.entries.len() - i,
        {
            if crate::strutil::str_eq(self.entries[i].0.as_str(), symbol) {
                return Some(i);
            }
            i = i + 1;
        }
        proof {
            lemma_addr_absent(self.entries@, symbol@);
        }
        None
    }

    /// Binds the symbol to the address, overwriting an earlier binding.
    pub fn add_entry(&mut self, symbol: &str, address: u16)
        requires
            old(self).wf(),
        ensures
            final(self).wf(),
            final(self).map() == old(self).map().insert(symbol@, address),
    {
        let ghost pre = self.entries@;
        let ghost n = symbol@;
        let owned = symbol.to_owned();
        match self.find(symbol) {
            Some(i) => {
                let p = (owned, address);
                proof {
                    lemma_addr_update(pre, i as int, p);
                }
                self.entries.set(i, p);
            },
            None => {
                proof {
                    assert forall|x: int| 0 <= x < pre.len() implies pre[x].0@ != n by {
                        if pre[x].0@ == n {
                            lemma_addr_index(pre, x);
                        }
                    }
                }
                self.entries.push((owned, address));
                proof {
                    assert(self.entries@.drop_last() =~= pre);
                    assert(self.entries@.last().0@ == n);
                    assert forall|i: int, j: int|
                        0 <= i < j < self.entries@.len() implies self.entries@[i].0@
                        != self.entries@[j].0@ by {
                        if j < pre.len() {
                            assert(pre[i].0@ != pre[j].0@);
                        } else {
                            assert(pre[i].0@ != n);
                        }
                    }
                }
            },
        }
    }

    /// Whether the symbol is bound.
    pub fn contains(&self, symbol: &str) -> (r: bool)
        requires
            self.wf(),
        ensures
            r == self.map().contains_key(symbol@),
    {
        match self.find(symbol) {
            Some(i) => {
                proof {
                    lemma_addr_index(self.entries@, i as int);
                }
                true
            },
            None => false,
        }
    }

    /// The address bound to the symbol.
    pub fn get_address(&self, symbol: &str) -> (r: u16)
        requires
            self.wf(),
            self.map().contains_key(symbol@),
        ensures
            r == self.map()[symbol@],
    {
        match self.find(symbol) {
            Some(i) => {
                proof {
                    lemma_addr_index(self.entries@, i as int);
                }
                self.entries[i].1
            },
            None => 0,  // unreachable under the precondition
        }
    }
}

/// The addresses that the machine fixes in advance: the virtual registers,
/// the segment pointers, and the two device maps.
pub open spec fn predefined_map() -> Map<Seq<char>, u16> {
    Map::<Seq<char>, u16>::empty().insert("SP"@, 0).insert("LCL"@, 1).insert("ARG"@, 2).insert(
        "THIS"@,
        3,
    ).insert("THAT"@, 4).insert("R0"@, 0).insert("R1"@, 1).insert("R2"@, 2).insert(
        "R3"@,
        3,
    ).insert("R4"@, 4).insert("R5"@, 5).insert("R6"@, 6).insert("R7"@, 7).insert(
        "R8"@,
        8,
    ).insert("R9"@, 9).insert("R10"@, 10).insert("R11"@, 11).insert("R12"@, 12).insert(
        "R13"@,
        13,
    ).insert("R14"@, 14).insert("R15"@, 15).insert("SCREEN"@, 16384).insert("KBD"@, 24576)
}

/// A symbol table holding exactly the predefined symbols.
pub fn predefined_symbol_table() -> (r: SymbolTable)
    ensures
        r.wf(),
        r.map() == predefined_map(),
{
    let mut symbol_table = SymbolTable::new();
    symbol_table.add_entry("SP", 0);
    symbol_table.add_entry("LCL", 1);
    symbol_table.add_entry("ARG", 2);
    symbol_table.add_entry("THIS", 3);
    symbol_table.add_entry("THAT", 4);
    symbol_table.add_entry("R0", 0);
    symbol_table.add_entry("R1", 1);
    symbol_table.add_entry("R2", 2);
    symbol_table.add_entry("R3", 3);
    symbol_table.add_entry("R4", 4);
    symbol_table.add_entry("R5", 5);
    symbol_table.add_entry("R6", 6);
    symbol_table.add_entry("R7", 7);
    symbol_table.add_entry("R8", 8);
    symbol_table.add_entry("R9", 9);
    symbol_table.add_entry("R10", 10);
    symbol_table.add_entry("R11", 11);
    symbol_table.add_entry("R12", 12);
    symbol_table.add_entry("R13", 13);
    symbol_table.add_entry("R14", 14);
    symbol_table.add_entry("R15", 15);
    symbol_table.add_entry("SCREEN", 16384);
    symbol_table.add_entry("KBD", 24576);
    symbol_table
}

} // verus!
