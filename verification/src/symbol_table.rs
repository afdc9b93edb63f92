use vstd::prelude::*;

verus! {

/// The storage kind of a declared variable, which fixes the memory segment
/// that holds it.
#[derive(Debug, PartialEq, Eq, Hash, Clone, Copy, Structural)]
pub enum IdentifierKind {
    STATIC,
    FIELD,
    ARG,
    VAR,
}

/// The mathematical shape of one symbol record: declared type, storage kind
/// and zero-based ordinal index within the kind.
pub ghost struct SymEntry {
    pub typ: Seq<char>,
    pub kind: IdentifierKind,
    pub index: u16,
}

/// One symbol record: declared type, storage kind, ordinal index.
#[derive(Debug, Clone)]
pub struct Record {
    var_type: String,
    kind: IdentifierKind,
    index: u16,
}

impl View for Record {
    type V = SymEntry;

    closed spec fn view(&self) -> SymEntry {
        SymEntry { typ: self.var_type@, kind: self.kind, index: self.index }
    }
}

impl Record {
    pub fn new(var_type: String, kind: IdentifierKind, index: u16) -> (r: Record)
        ensures
            r@ == (SymEntry { typ: var_type@, kind, index }),
    {
        Record { var_type, kind, index }
    }

    /// The declared type of the record.
    pub fn var_type(&self) -> (r: &String)
        ensures
            r@ == self@.typ,
    {
        &self.var_type
    }

    /// The storage kind of the record.
    pub fn kind(&self) -> (r: IdentifierKind)
        ensures
            r == self@.kind,
    {
        self.kind
    }

    /// The ordinal index of the record within its kind.
    pub fn index(&self) -> (r: u16)
        ensures
            r == self@.index,
    {
        self.index
    }
}

/// The name-to-record map described by an association list, later entries
/// overriding earlier ones.
pub open spec fn assoc_map(s: Seq<(String, Record)>) -> Map<Seq<char>, SymEntry>
    decreases s.len(),
{
    if s.len() == 0 {
        Map::empty()
    } else {
        assoc_map(s.drop_last()).insert(s.last().0@, s.last().1@)
    }
}

/// No two entries share a name.
pub open spec fn distinct_keys(s: Seq<(String, Record)>) -> bool {
    forall|i: int, j: int| 0 <= i < j < s.len() ==> s[i].0@ != s[j].0@
}

proof fn lemma_assoc_index(s: Seq<(String, Record)>, i: int)
    requires
        distinct_keys(s),
        0 <= i < s.len(),
    ensures
        assoc_map(s).contains_key(s[i].0@),
        assoc_map(s)[s[i].0@] == s[i].1@,
    decreases s.len(),
{
    if i < s.len() - 1 {
        assert(distinct_keys(s.drop_last())) by {
            assert(forall|x: int, y: int|
                0 <= x < y < s.drop_last().len() ==> s.drop_last()[x].0@ != s.drop_last()[y].0@);
        }
        lemma_assoc_index(s.drop_last(), i);
        assert(s.last().0@ != s[i].0@);
    }
}

proof fn lemma_assoc_absent(s: Seq<(String, Record)>, k: Seq<char>)
    requires
        forall|i: int| 0 <= i < s.len() ==> s[i].0@ != k,
    ensures
        !assoc_map(s).contains_key(k),
    decreases s.len(),
{
    if s.len() > 0 {
        lemma_assoc_absent(s.drop_last(), k);
    }
}

proof fn lemma_assoc_update(s: Seq<(String, Record)>, i: int, p: (String, Record))
    requires
        distinct_keys(s),
        0 <= i < s.len(),
        p.0@ == s[i].0@,
    ensures
        assoc_map(s.update(i, p)) =~= assoc_map(s).insert(p.0@, p.1@),
        distinct_keys(s.update(i, p)),
    decreases s.len(),
{
    let t = s.update(i, p);
    assert(distinct_keys(t)) by {
        assert(forall|x: int, y: int| 0 <= x < y < t.len() ==> t[x].0@ != t[y].0@) by {
            assert(forall|x: int| 0 <= x < t.len() ==> t[x].0@ == s[x].0@);
        }
    }
    if i == s.len() - 1 {
        assert(t.drop_last() =~= s.drop_last());
    } else {
        assert(t.drop_last() =~= s.drop_last().update(i, p));
        assert(distinct_keys(s.drop_last())) by {
            assert(forall|x: int, y: int|
                0 <= x < y < s.drop_last().len() ==> s.drop_last()[x].0@ != s.drop_last()[y].0@);
        }
        lemma_assoc_update(s.drop_last(), i, p);
        assert(s.last().0@ != p.0@);
        assert(t.last() == s.last());
    }
}

/// One scope: an association of names to records plus a running counter per
/// storage kind. The counter value at insertion time becomes the new record's
/// ordinal index, and is bumped even when an existing name is overwritten.
pub struct Table {
    records: Vec<(String, Record)>,
    n_static: u16,
    n_field: u16,
    n_arg: u16,
    n_var: u16,
}

impl Table {
    /// The records of the scope, as a map from name to entry.
    pub closed spec fn map(self) -> Map<Seq<char>, SymEntry> {
        assoc_map(self.records@)
    }

    /// The running counter of the given kind.
    pub closed spec fn count(self, kind: IdentifierKind) -> u16 {
        match kind {
            IdentifierKind::STATIC => self.n_static,
            IdentifierKind::FIELD => self.n_field,
            IdentifierKind::ARG => self.n_arg,
            IdentifierKind::VAR => self.n_var,
        }
    }

    pub closed spec fn wf(self) -> bool {
        distinct_keys(self.records@)
    }

    pub fn new() -> (r: Table)
        ensures
            r.wf(),
            r.map() == Map::<Seq<char>, SymEntry>::empty(),
            forall|k: IdentifierKind| r.count(k) == 0,
    {
        Table { records: Vec::new(), n_static: 0, n_field: 0, n_arg: 0, n_var: 0 }
    }

    fn find(&self, name: &String) -> (r: Option<usize>)
        requires
            self.wf(),
        ensures
            (r matches Some(i) ==> i < self.records@.len() && self.records@[i as int].0@ == name@),
            r is None ==> !self.map().contains_key(name@),
    {
        let mut i: usize = 0;
        while i < self.records.len()
            invariant
                self.wf(),
                i <= self.records.len(),
                forall|j: int| 0 <= j < i ==> self.records@[j].0@ != name@,
            decreases self.records.len() - i,
        {
            if self.records[i].0 == *name {
                return Some(i);
            }
            i = i + 1;
        }
        proof {
            lemma_assoc_absent(self.records@, name@);
        }
        None
    }

    /// Inserts a record under the next index of its kind; a record already
    /// held under the same name is overwritten, and the counter is bumped
    /// either way.
    pub fn insert(&mut self, name: String, var_type: String, kind: IdentifierKind)
        requires
            old(self).wf(),
            old(self).count(kind) < u16::MAX,
        ensures
            final(self).wf(),
            final(self).map() == old(self).map().insert(
                name@,
                SymEntry { typ: var_type@, kind, index: old(self).count(kind) },
            ),
            final(self).count(kind) == old(self).count(kind) + 1,
            forall|k: IdentifierKind| k != kind ==> final(self).count(k) == old(self).count(k),
    {
        let index = self.get_count(kind);
        let record = Record::new(var_type, kind, index);
        let ghost pre = self.records@;
        let ghost n = name@;
        match self.find(&name) {
            Some(i) => {
                let p = (name, record);
                proof {
                    lemma_assoc_update(pre, i as int, p);
                }
                self.records.set(i, p);
            },
            None => {
                proof {
                    assert forall|x: int| 0 <= x < pre.len() implies pre[x].0@ != n by {
                        if pre[x].0@ == n {
                            lemma_assoc_index(pre, x);
                        }
                    }
                }
                self.records.push((name, record));
                proof {
                    assert(self.records@.drop_last() =~= pre);
                    assert(self.records@.last().0@ == n);
                    assert forall|i: int, j: int|
                        0 <= i < j < self.records@.len() implies self.records@[i].0@
                        != self.records@[j].0@ by {
                        if j < pre.len() {
                            assert(pre[i].0@ != pre[j].0@);
                        } else {
                            assert(pre[i].0@ != n);
                        }
                    }
                }
            },
        }
        match kind {
            IdentifierKind::STATIC => {
                self.n_static = self.n_static + 1;
            },
            IdentifierKind::FIELD => {
                self.n_field = self.n_field + 1;
            },
            IdentifierKind::ARG => {
                self.n_arg = self.n_arg + 1;
            },
            IdentifierKind::VAR => {
                self.n_var = self.n_var + 1;
            },
        }
    }

    /// The running counter of the kind, which equals the number of insertions
    /// of that kind so far.
    pub fn get_count(&self, kind: IdentifierKind) -> (r: u16)
        ensures
            r == self.count(kind),
    {
        match kind {
            IdentifierKind::STATIC => self.n_static,
            IdentifierKind::FIELD => self.n_field,
            IdentifierKind::ARG => self.n_arg,
            IdentifierKind::VAR => self.n_var,
        }
    }

    /// The record held under the name, if any.
    pub fn get_record(&self, name: String) -> (r: Option<Record>)
        requires
            self.wf(),
        ensures
            (r matches Some(rec) ==> self.map().contains_key(name@) && rec@ == self.map()[name@]),
            r is None ==> !self.map().contains_key(name@),
    {
        match self.find(&name) {
            Some(i) => {
                proof {
                    lemma_assoc_index(self.records@, i as int);
                }
                let rec = &self.records[i].1;
                Some(Record { var_type: rec.var_type.clone(), kind: rec.kind, index: rec.index })
            },
            None => None,
        }
    }
}

/// The two-scope symbol table: a class scope holding Static and Field
/// records and a subroutine scope holding Argument and Local records, the
/// subroutine scope shadowing the class scope on lookup.
pub struct SymbolTable {
    class_table: Table,
    subroutine_table: Table,
}

impl SymbolTable {
    /// Both scopes hold each name at most once.
    pub closed spec fn scopes_wf(self) -> bool {
        self.class_table.wf() && self.subroutine_table.wf()
    }

    pub open spec fn wf(self) -> bool {
        &&& self.scopes_wf()
        &&& self.class_count(IdentifierKind::ARG) == 0
        &&& self.class_count(IdentifierKind::VAR) == 0
        &&& self.sub_count(IdentifierKind::STATIC) == 0
        &&& self.sub_count(IdentifierKind::FIELD) == 0
    }

    pub closed spec fn class_map(self) -> Map<Seq<char>, SymEntry> {
        self.class_table.map()
    }

    pub closed spec fn sub_map(self) -> Map<Seq<char>, SymEntry> {
        self.subroutine_table.map()
    }

    /// The running counter of the kind in the class scope.
    pub closed spec fn class_count(self, kind: IdentifierKind) -> u16 {
        self.class_table.count(kind)
    }

    /// The running counter of the kind in the subroutine scope.
    pub closed spec fn sub_count(self, kind: IdentifierKind) -> u16 {
        self.subroutine_table.count(kind)
    }

    /// Resolution order: the subroutine scope first, then the class scope.
    pub open spec fn resolve(self, name: Seq<char>) -> Option<SymEntry> {
        if self.sub_map().contains_key(name) {
            Some(self.sub_map()[name])
        } else if self.class_map().contains_key(name) {
            Some(self.class_map()[name])
        } else {
            None
        }
    }

    /// The scope that records of this kind live in.
    pub open spec fn scope_count(self, kind: IdentifierKind) -> u16 {
        match kind {
            IdentifierKind::STATIC | IdentifierKind::FIELD => self.class_count(kind),
            IdentifierKind::ARG | IdentifierKind::VAR => self.sub_count(kind),
        }
    }

    pub fn new() -> (r: SymbolTable)
        ensures
            r.wf(),
            r.class_map() == Map::<Seq<char>, SymEntry>::empty(),
            r.sub_map() == Map::<Seq<char>, SymEntry>::empty(),
            forall|k: IdentifierKind| r.scope_count(k) == 0,
    {
        SymbolTable { class_table: Table::new(), subroutine_table: Table::new() }
    }

    /// Discards and recreates the subroutine scope; the class scope is kept.
    pub fn start_subroutine(&mut self)
        requires
            old(self).wf(),
        ensures
            final(self).wf(),
            final(self).class_map() == old(self).class_map(),
            forall|k: IdentifierKind| final(self).class_count(k) == old(self).class_count(k),
            final(self).sub_map() == Map::<Seq<char>, SymEntry>::empty(),
            forall|k: IdentifierKind| final(self).sub_count(k) == 0,
    {
        self.subroutine_table = Table::new();
    }

    /// Inserts into the class scope for Static and Field kinds, else into the
    /// subroutine scope, under the next ordinal index of the kind in that
    /// scope; an existing record of the same name in that scope is
    /// overwritten, last write winning.
    pub fn define(&mut self, name: String, var_type: String, kind: IdentifierKind)
        requires
            old(self).wf(),
            old(self).scope_count(kind) < u16::MAX,
        ensures
            final(self).wf(),
            define_step(*old(self), *final(self), name@, var_type@, kind),
    {
        match kind {
            IdentifierKind::STATIC | IdentifierKind::FIELD => {
                self.class_table.insert(name, var_type, kind);
            },
            IdentifierKind::ARG | IdentifierKind::VAR => {
                self.subroutine_table.insert(name, var_type, kind);
            },
        }
    }

    /// The total count of records of the kind across both scopes.
    pub fn var_count(&self, kind: IdentifierKind) -> (r: u16)
        requires
            self.wf(),
        ensures
            r == self.scope_count(kind),
            r == self.class_count(kind) + self.sub_count(kind),
    {
        let a = self.class_table.get_count(kind);
        let b = self.subroutine_table.get_count(kind);
        a + b
    }

    fn get_record(&self, name: String) -> (r: Option<Record>)
        requires
            self.wf(),
        ensures
            (r matches Some(rec) ==> self.resolve(name@) == Some(rec@)),
            r is None ==> self.resolve(name@) is None,
    {
        let sub = self.subroutine_table.get_record(name.clone());
        match sub {
            Some(rec) => Some(rec),
            None => self.class_table.get_record(name),
        }
    }

    /// The storage kind of the name in the visible scope, or nothing when the
    /// name is absent from both scopes.
    pub fn kind_of(&self, name: String) -> (r: Option<IdentifierKind>)
        requires
            self.wf(),
        ensures
            (r matches Some(k) ==> self.resolve(name@) matches Some(e) && e.kind == k),
            r is None <==> self.resolve(name@) is None,
    {
        match self.get_record(name) {
            Some(rec) => Some(rec.kind()),
            None => None,
        }
    }

    /// The declared type of the name in the visible scope.
    pub fn type_of(&self, name: String) -> (r: Option<String>)
        requires
            self.wf(),
        ensures
            (r matches Some(t) ==> self.resolve(name@) matches Some(e) && e.typ == t@),
            r is None <==> self.resolve(name@) is None,
    {
        match self.get_record(name) {
            Some(rec) => Some(rec.var_type().clone()),
            None => None,
        }
    }

    /// The ordinal index of the name in the visible scope.
    pub fn index_of(&self, name: String) -> (r: Option<u16>)
        requires
            self.wf(),
        ensures
            (r matches Some(i) ==> self.resolve(name@) matches Some(e) && e.index == i),
            r is None <==> self.resolve(name@) is None,
    {
        match self.get_record(name) {
            Some(rec) => Some(rec.index()),
            None => None,
        }
    }
}

/// What one definition does to the two scopes: the record goes to the scope
/// of its kind under the next index of that kind, the counter of that kind is
/// bumped, and everything else is untouched.
pub open spec fn define_step(
    pre: SymbolTable,
    post: SymbolTable,
    name: Seq<char>,
    typ: Seq<char>,
    kind: IdentifierKind,
) -> bool {
    let entry = SymEntry { typ, kind, index: pre.scope_count(kind) };
    match kind {
        IdentifierKind::STATIC | IdentifierKind::FIELD => {
            &&& post.class_map() == pre.class_map().insert(name, entry)
            &&& post.sub_map() == pre.sub_map()
            &&& post.class_count(kind) == pre.class_count(kind) + 1
            &&& forall|k: IdentifierKind|
                k != kind ==> post.class_count(k) == pre.class_count(k)
            &&& forall|k: IdentifierKind|
                post.sub_count(k) == pre.sub_count(k)
        },
        IdentifierKind::ARG | IdentifierKind::VAR => {
            &&& post.sub_map() == pre.sub_map().insert(name, entry)
            &&& post.class_map() == pre.class_map()
            &&& post.sub_count(kind) == pre.sub_count(kind) + 1
            &&& forall|k: IdentifierKind|
                k != kind ==> post.sub_count(k) == pre.sub_count(k)
            &&& forall|k: IdentifierKind|
                post.class_count(k) == pre.class_count(k)
        },
    }
}

/// What was last defined for a name is exactly what resolution returns, with
/// the subroutine scope taking precedence over the class scope: a new
/// Argument or Local record is visible at once; a new Static or Field record
/// is visible unless a subroutine-scoped record of the same name shadows it;
/// every other name resolves as before.
pub proof fn law_define_then_lookup(
    pre: SymbolTable,
    post: SymbolTable,
    name: Seq<char>,
    typ: Seq<char>,
    kind: IdentifierKind,
)
    requires
        define_step(pre, post, name, typ, kind),
    ensures
        (kind == IdentifierKind::ARG || kind == IdentifierKind::VAR) ==> post.resolve(name)
            == Some(SymEntry { typ, kind, index: pre.scope_count(kind) }),
        (kind == IdentifierKind::STATIC || kind == IdentifierKind::FIELD)
            && !pre.sub_map().contains_key(name) ==> post.resolve(name)
            == Some(SymEntry { typ, kind, index: pre.scope_count(kind) }),
        (kind == IdentifierKind::STATIC || kind == IdentifierKind::FIELD)
            && pre.sub_map().contains_key(name) ==> post.resolve(name) == pre.resolve(name),
        forall|other: Seq<char>| other != name ==> post.resolve(other) == pre.resolve(other),
{
}

/// Starting a subroutine zeroes the Argument and Local counts and makes every
/// previously subroutine-scoped name unresolvable, while class-scoped names
/// keep resolving to their class records.
pub proof fn law_start_subroutine_resets(pre: SymbolTable, post: SymbolTable)
    requires
        pre.wf(),
        post.wf(),
        post.class_map() == pre.class_map(),
        post.sub_map() == Map::<Seq<char>, SymEntry>::empty(),
        forall|k: IdentifierKind| post.sub_count(k) == 0,
        forall|k: IdentifierKind| post.class_count(k) == pre.class_count(k),
    ensures
        post.scope_count(IdentifierKind::ARG) == 0,
        post.scope_count(IdentifierKind::VAR) == 0,
        forall|n: Seq<char>|
            post.resolve(n) == if pre.class_map().contains_key(n) {
                Some(pre.class_map()[n])
            } else {
                None::<SymEntry>
            },
{
}

} // verus!
