use vstd::prelude::*;
use vstd::string::StringExecFns;
use crate::error::CompileError;
use crate::strutil::{dec_digits, lemma_dec_digits_injective, u16_to_string};
use crate::symbol_table::{IdentifierKind, SymbolTable};
use crate::tokenizer::{spec_tokens, JackTokenizer};
use crate::tokens::{KeyWord, Tok, TokenType};
use crate::vm_writer::{Command, Segment, VMWriter, VmCmd};

verus! {

/// The failures that parsing itself can produce: a structural error on an
/// unexpected token or end, a semantic error on an unresolved identifier, or
/// a counter at its machine limit. Lexical errors arise only while the
/// engine is built, never while it compiles.
pub open spec fn engine_error(e: CompileError) -> bool {
    ||| e == CompileError::UnexpectedToken
    ||| e == CompileError::UnexpectedEnd
    ||| e == CompileError::UnresolvedIdentifier
    ||| e == CompileError::TooManySymbols
    ||| e == CompileError::TooManyLoops
    ||| e == CompileError::TooManyArguments
}

// ---------------------------------------------------------------------------
// Output shapes
// ---------------------------------------------------------------------------
/// The commands that `post` holds beyond `pre`.
pub open spec fn appended(pre: Seq<VmCmd>, post: Seq<VmCmd>) -> Seq<VmCmd> {
    post.subrange(pre.len() as int, post.len() as int)
}

/// `post` begins with `pre`: emitted commands are never rewritten.
pub open spec fn extends(pre: Seq<VmCmd>, post: Seq<VmCmd>) -> bool {
    pre.len() <= post.len() && post.subrange(0, pre.len() as int) =~= pre
}

pub proof fn lemma_extends_trans(a: Seq<VmCmd>, b: Seq<VmCmd>, c: Seq<VmCmd>)
    requires
        extends(a, b),
        extends(b, c),
    ensures
        extends(a, c),
        appended(a, c) == appended(a, b) + appended(b, c),
{
    assert(c.subrange(0, a.len() as int) =~= b.subrange(0, a.len() as int));
    assert(appended(a, c) =~= appended(a, b) + appended(b, c));
}

pub proof fn lemma_extends_push(a: Seq<VmCmd>, x: VmCmd)
    ensures
        extends(a, a.push(x)),
        appended(a, a.push(x)) == seq![x],
{
    assert(a.push(x).subrange(0, a.len() as int) =~= a);
    assert(appended(a, a.push(x)) =~= seq![x]);
}

// ---------------------------------------------------------------------------
// Fixed pieces of emitted code
// ---------------------------------------------------------------------------
/// The segment that a storage kind maps to.
pub open spec fn seg_of(k: IdentifierKind) -> Segment {
    match k {
        IdentifierKind::ARG => Segment::ARG,
        IdentifierKind::FIELD => Segment::THIS,
        IdentifierKind::STATIC => Segment::STATIC,
        IdentifierKind::VAR => Segment::LOCAL,
    }
}

fn seg_of_x(k: IdentifierKind) -> (r: Segment)
    ensures
        r == seg_of(k),
{
    match k {
        IdentifierKind::ARG => Segment::ARG,
        IdentifierKind::FIELD => Segment::THIS,
        IdentifierKind::STATIC => Segment::STATIC,
        IdentifierKind::VAR => Segment::LOCAL,
    }
}

/// The code unit of one character, clipped to 16 bits.
pub open spec fn char_code(c: char) -> u16 {
    (c as u32) as u16
}

/// The calls that append the characters of a string constant one by one.
pub open spec fn append_char_cmds(s: Seq<char>) -> Seq<VmCmd>
    decreases s.len(),
{
    if s.len() == 0 {
        Seq::empty()
    } else {
        append_char_cmds(s.drop_last()) + seq![
            VmCmd::Push(Segment::CONSTANT, char_code(s.last())),
            VmCmd::Call("String.appendChar"@, 2),
        ]
    }
}

/// The code of a string constant: its length, the constructor call, then one
/// append call per character.
pub open spec fn string_const_cmds(s: Seq<char>) -> Seq<VmCmd> {
    seq![
        VmCmd::Push(Segment::CONSTANT, s.len() as u16),
        VmCmd::Call("String.new"@, 1),
    ] + append_char_cmds(s)
}

/// The prologue of a constructor: allocate one cell per field and establish
/// the object pointer.
pub open spec fn ctor_prologue(n_fields: u16) -> Seq<VmCmd> {
    seq![
        VmCmd::Push(Segment::CONSTANT, n_fields),
        VmCmd::Call("Memory.alloc"@, 1),
        VmCmd::Pop(Segment::POINTER, 0),
    ]
}

/// The prologue of a method: move the receiver argument into the object
/// pointer.
pub open spec fn method_prologue() -> Seq<VmCmd> {
    seq![VmCmd::Push(Segment::ARG, 0), VmCmd::Pop(Segment::POINTER, 0)]
}

// ---------------------------------------------------------------------------
// Control-flow labels
// ---------------------------------------------------------------------------
pub open spec fn while_top(c: u16) -> Seq<char> {
    "WHILE_LOOP"@ + dec_digits(c as nat)
}

pub open spec fn while_cont(c: u16) -> Seq<char> {
    "WHILE_CONTINUE"@ + dec_digits(c as nat)
}

pub open spec fn if_else_label(c: u16) -> Seq<char> {
    "IF_ELSE"@ + dec_digits(c as nat)
}

pub open spec fn if_cont_label(c: u16) -> Seq<char> {
    "IF_CONTINUE"@ + dec_digits(c as nat)
}

fn make_label(prefix: &str, c: u16) -> (r: String)
    ensures
        r@ == prefix@ + dec_digits(c as nat),
{
    let mut r = String::from_str(prefix);
    let d = u16_to_string(c);
    r.append(d.as_str());
    r
}

proof fn lemma_concat_cancel(p: Seq<char>, a: Seq<char>, b: Seq<char>)
    requires
        p + a == p + b,
    ensures
        a == b,
{
    assert(a =~= (p + a).subrange(p.len() as int, (p + a).len() as int));
    assert(b =~= (p + b).subrange(p.len() as int, (p + b).len() as int));
}

/// Distinct per-loop integers give distinct labels, the top and continue
/// labels of one loop differ, and the two label families never collide: a
/// second loop in the same subroutine can never reuse the labels of the
/// first.
pub proof fn law_loop_labels_fresh(c1: u16, c2: u16)
    ensures
        c1 != c2 ==> while_top(c1) != while_top(c2),
        c1 != c2 ==> while_cont(c1) != while_cont(c2),
        c1 != c2 ==> if_else_label(c1) != if_else_label(c2),
        c1 != c2 ==> if_cont_label(c1) != if_cont_label(c2),
        while_top(c1) != while_cont(c2),
        if_else_label(c1) != if_cont_label(c2),
        while_top(c1) != if_else_label(c2),
        while_top(c1) != if_cont_label(c2),
        while_cont(c1) != if_else_label(c2),
        while_cont(c1) != if_cont_label(c2),
{
    reveal_strlit("WHILE_LOOP");
    reveal_strlit("WHILE_CONTINUE");
    reveal_strlit("IF_ELSE");
    reveal_strlit("IF_CONTINUE");
    crate::strutil::lemma_dec_digits_len(c1 as nat);
    crate::strutil::lemma_dec_digits_len(c2 as nat);
    if c1 != c2 {
        if while_top(c1) == while_top(c2) {
            lemma_concat_cancel("WHILE_LOOP"@, dec_digits(c1 as nat), dec_digits(c2 as nat));
            lemma_dec_digits_injective(c1 as nat, c2 as nat);
        }
        if while_cont(c1) == while_cont(c2) {
            lemma_concat_cancel("WHILE_CONTINUE"@, dec_digits(c1 as nat), dec_digits(c2 as nat));
            lemma_dec_digits_injective(c1 as nat, c2 as nat);
        }
        if if_else_label(c1) == if_else_label(c2) {
            lemma_concat_cancel("IF_ELSE"@, dec_digits(c1 as nat), dec_digits(c2 as nat));
            lemma_dec_digits_injective(c1 as nat, c2 as nat);
        }
        if if_cont_label(c1) == if_cont_label(c2) {
            lemma_concat_cancel("IF_CONTINUE"@, dec_digits(c1 as nat), dec_digits(c2 as nat));
            lemma_dec_digits_injective(c1 as nat, c2 as nat);
        }
    }
    if while_top(c1) == while_cont(c2) {
        assert(while_top(c1)[6] == 'L');
        assert(while_cont(c2)[6] == 'C');
    }
    if if_else_label(c1) == if_cont_label(c2) {
        assert(if_else_label(c1)[3] == 'E');
        assert(if_cont_label(c2)[3] == 'C');
    }
    if while_top(c1) == if_else_label(c2) {
        assert(while_top(c1)[0] == 'W');
        assert(if_else_label(c2)[0] == 'I');
    }
    if while_top(c1) == if_cont_label(c2) {
        assert(while_top(c1)[0] == 'W');
        assert(if_cont_label(c2)[0] == 'I');
    }
    if while_cont(c1) == if_else_label(c2) {
        assert(while_cont(c1)[0] == 'W');
        assert(if_else_label(c2)[0] == 'I');
    }
    if while_cont(c1) == if_cont_label(c2) {
        assert(while_cont(c1)[0] == 'W');
        assert(if_cont_label(c2)[0] == 'I');
    }
}

/// In a method the implicit receiver is defined first and consumes argument
/// index zero, so the first user-declared parameter receives argument index
/// one, and both stay resolvable side by side.
pub proof fn law_first_parameter_follows_receiver(
    fresh: SymbolTable,
    with_receiver: SymbolTable,
    with_parameter: SymbolTable,
    cls: Seq<char>,
    pname: Seq<char>,
    ptyp: Seq<char>,
)
    requires
        fresh.sub_count(IdentifierKind::ARG) == 0,
        crate::symbol_table::define_step(
            fresh,
            with_receiver,
            "this"@,
            cls,
            IdentifierKind::ARG,
        ),
        crate::symbol_table::define_step(
            with_receiver,
            with_parameter,
            pname,
            ptyp,
            IdentifierKind::ARG,
        ),
        pname != "this"@,
    ensures
        with_parameter.resolve(pname) == Some(
            crate::symbol_table::SymEntry { typ: ptyp, kind: IdentifierKind::ARG, index: 1u16 },
        ),
        with_parameter.resolve("this"@) == Some(
            crate::symbol_table::SymEntry { typ: cls, kind: IdentifierKind::ARG, index: 0u16 },
        ),
{
}

// ---------------------------------------------------------------------------
// The meaning of the grammar
//
// These spec functions state, production by production, what compiling a
// token sequence must do: where the cursor ends, which commands are emitted,
// what enters the symbol table, how the label counter moves, and on which
// inputs which error is owed. Each executable compile function below is
// proved equal to its spec function, in both the success and the failure
// direction.
// ---------------------------------------------------------------------------
/// The two scopes of the symbol table as plain maps and counters.
#[verifier::ext_equal]
pub ghost struct ScopeModel {
    pub class: Map<Seq<char>, crate::symbol_table::SymEntry>,
    pub sub: Map<Seq<char>, crate::symbol_table::SymEntry>,
    pub n_static: u16,
    pub n_field: u16,
    pub n_arg: u16,
    pub n_var: u16,
}

/// The model of a symbol table value.
pub open spec fn model_of(st: SymbolTable) -> ScopeModel {
    ScopeModel {
        class: st.class_map(),
        sub: st.sub_map(),
        n_static: st.class_count(IdentifierKind::STATIC),
        n_field: st.class_count(IdentifierKind::FIELD),
        n_arg: st.sub_count(IdentifierKind::ARG),
        n_var: st.sub_count(IdentifierKind::VAR),
    }
}

/// The running counter of a kind, in the scope that owns the kind.
pub open spec fn sm_count(m: ScopeModel, kind: IdentifierKind) -> u16 {
    match kind {
        IdentifierKind::STATIC => m.n_static,
        IdentifierKind::FIELD => m.n_field,
        IdentifierKind::ARG => m.n_arg,
        IdentifierKind::VAR => m.n_var,
    }
}

/// One definition: the record goes to the scope of its kind under the next
/// index of that kind, and that counter is bumped.
pub open spec fn sm_define(
    m: ScopeModel,
    name: Seq<char>,
    typ: Seq<char>,
    kind: IdentifierKind,
) -> ScopeModel {
    let entry = crate::symbol_table::SymEntry { typ, kind, index: sm_count(m, kind) };
    match kind {
        IdentifierKind::STATIC => ScopeModel {
            class: m.class.insert(name, entry),
            n_static: (m.n_static + 1) as u16,
            ..m
        },
        IdentifierKind::FIELD => ScopeModel {
            class: m.class.insert(name, entry),
            n_field: (m.n_field + 1) as u16,
            ..m
        },
        IdentifierKind::ARG => ScopeModel {
            sub: m.sub.insert(name, entry),
            n_arg: (m.n_arg + 1) as u16,
            ..m
        },
        IdentifierKind::VAR => ScopeModel {
            sub: m.sub.insert(name, entry),
            n_var: (m.n_var + 1) as u16,
            ..m
        },
    }
}

/// Resolution: the subroutine scope first, then the class scope.
pub open spec fn sm_resolve(m: ScopeModel, name: Seq<char>) -> Option<
    crate::symbol_table::SymEntry,
> {
    if m.sub.contains_key(name) {
        Some(m.sub[name])
    } else if m.class.contains_key(name) {
        Some(m.class[name])
    } else {
        None
    }
}

/// A fresh subroutine scope: the class scope is kept, the subroutine scope
/// and its counters are discarded.
pub open spec fn sm_reset(m: ScopeModel) -> ScopeModel {
    ScopeModel {
        sub: Map::empty(),
        n_arg: 0,
        n_var: 0,
        ..m
    }
}

/// The whole mutable state of a parse: cursor, emitted commands, scopes and
/// the per-subroutine label counter.
#[verifier::ext_equal]
pub ghost struct ParseState {
    pub at: int,
    pub out: Seq<VmCmd>,
    pub sym: ScopeModel,
    pub lc: u16,
}

pub open spec fn bump(s: ParseState) -> ParseState {
    ParseState { at: s.at + 1, ..s }
}

pub open spec fn emit1(s: ParseState, c: VmCmd) -> ParseState {
    ParseState { out: s.out.push(c), ..s }
}

pub open spec fn emitn(s: ParseState, cs: Seq<VmCmd>) -> ParseState {
    ParseState { out: s.out + cs, ..s }
}

/// Cursor sanity between two states: never backwards, never past the end.
/// Every successful step of the grammar satisfies it; the checks below only
/// discharge termination of the spec's recursion.
pub open spec fn settled(toks: Seq<Tok>, pre: ParseState, post: ParseState) -> bool {
    pre.at <= post.at <= toks.len()
}

pub open spec fn stepped(toks: Seq<Tok>, pre: ParseState, post: ParseState) -> bool {
    pre.at < post.at <= toks.len()
}

/// Consuming one expected symbol.
pub open spec fn sp_expect(toks: Seq<Tok>, s: ParseState, c: char) -> Result<
    ParseState,
    CompileError,
> {
    if s.at >= toks.len() {
        Err(CompileError::UnexpectedEnd)
    } else if toks[s.at] == Tok::Symbol(c) {
        Ok(bump(s))
    } else {
        Err(CompileError::UnexpectedToken)
    }
}

/// Consuming one identifier.
pub open spec fn sp_ident(toks: Seq<Tok>, s: ParseState) -> Result<
    (ParseState, Seq<char>),
    CompileError,
> {
    if s.at >= toks.len() {
        Err(CompileError::UnexpectedEnd)
    } else {
        match toks[s.at] {
            Tok::Identifier(w) => Ok((bump(s), w)),
            _ => Err(CompileError::UnexpectedToken),
        }
    }
}

/// Consuming one type position.
pub open spec fn sp_type(toks: Seq<Tok>, s: ParseState) -> Result<
    (ParseState, Seq<char>),
    CompileError,
> {
    if s.at >= toks.len() {
        Err(CompileError::UnexpectedEnd)
    } else {
        match type_text(toks[s.at]) {
            Some(t) => Ok((bump(s), t)),
            None => Err(CompileError::UnexpectedToken),
        }
    }
}

/// The command of one binary operator.
pub open spec fn op_cmd(c: char) -> VmCmd {
    if c == '+' {
        VmCmd::Arith(Command::ADD)
    } else if c == '-' {
        VmCmd::Arith(Command::SUB)
    } else if c == '*' {
        VmCmd::Call("Math.multiply"@, 2)
    } else if c == '/' {
        VmCmd::Call("Math.divide"@, 2)
    } else if c == '&' {
        VmCmd::Arith(Command::AND)
    } else if c == '|' {
        VmCmd::Arith(Command::OR)
    } else if c == '<' {
        VmCmd::Arith(Command::LT)
    } else if c == '>' {
        VmCmd::Arith(Command::GT)
    } else {
        VmCmd::Arith(Command::EQ)
    }
}

/// One term: a literal, a keyword constant, a variable, an array access, a
/// call, a unary application or a parenthesized sub-expression.
pub open spec fn sp_term(toks: Seq<Tok>, cls: Seq<char>, s: ParseState) -> Result<
    ParseState,
    CompileError,
>
    decreases toks.len() - s.at, 0int,
    when 0 <= s.at <= toks.len()
{
    if s.at >= toks.len() {
        Err(CompileError::UnexpectedEnd)
    } else {
        match toks[s.at] {
            Tok::IntConst(v) => Ok(emit1(bump(s), VmCmd::Push(Segment::CONSTANT, v))),
            Tok::StringConst(sv) => Ok(emitn(bump(s), string_const_cmds(sv))),
            Tok::Keyword(k) => {
                if k == KeyWord::TRUE {
                    Ok(
                        emitn(
                            bump(s),
                            seq![
                                VmCmd::Push(Segment::CONSTANT, 0u16),
                                VmCmd::Arith(Command::NOT),
                            ],
                        ),
                    )
                } else if k == KeyWord::FALSE || k == KeyWord::NULL {
                    Ok(emit1(bump(s), VmCmd::Push(Segment::CONSTANT, 0)))
                } else if k == KeyWord::THIS {
                    Ok(emit1(bump(s), VmCmd::Push(Segment::POINTER, 0)))
                } else {
                    Err(CompileError::UnexpectedToken)
                }
            },
            Tok::Symbol(c) => {
                if c == '-' || c == '~' {
                    match sp_term(toks, cls, bump(s)) {
                        Err(e) => Err(e),
                        Ok(s2) => Ok(
                            emit1(
                                s2,
                                if c == '-' {
                                    VmCmd::Arith(Command::NEG)
                                } else {
                                    VmCmd::Arith(Command::NOT)
                                },
                            ),
                        ),
                    }
                } else if c == '(' {
                    match sp_expression(toks, cls, bump(s)) {
                        Err(e) => Err(e),
                        Ok(s2) => sp_expect(toks, s2, ')'),
                    }
                } else {
                    Err(CompileError::UnexpectedToken)
                }
            },
            Tok::Identifier(nm) => {
                let s1 = bump(s);
                if s1.at < toks.len() && (toks[s1.at] == Tok::Symbol('(') || toks[s1.at]
                    == Tok::Symbol('.')) {
                    sp_call(toks, cls, s1, nm)
                } else {
                    match sm_resolve(s.sym, nm) {
                        None => Err(CompileError::UnresolvedIdentifier),
                        Some(e) => {
                            let s2 = emit1(s1, VmCmd::Push(seg_of(e.kind), e.index));
                            if s2.at < toks.len() && toks[s2.at] == Tok::Symbol('[') {
                                match sp_expression(toks, cls, bump(s2)) {
                                    Err(er) => Err(er),
                                    Ok(s3) => match sp_expect(toks, s3, ']') {
                                        Err(er) => Err(er),
                                        Ok(s4) => Ok(
                                            emitn(
                                                s4,
                                                seq![
                                                    VmCmd::Arith(Command::ADD),
                                                    VmCmd::Pop(Segment::POINTER, 1),
                                                    VmCmd::Push(Segment::THAT, 0),
                                                ],
                                            ),
                                        ),
                                    },
                                }
                            } else {
                                Ok(s2)
                            }
                        },
                    }
                }
            },
        }
    }
}

/// The continuation of an expression: operators applied left to right, each
/// emitted after its right operand, with the fixed operator mapping.
pub open spec fn sp_exp_ops(toks: Seq<Tok>, cls: Seq<char>, s: ParseState) -> Result<
    ParseState,
    CompileError,
>
    decreases toks.len() - s.at, 0int,
    when 0 <= s.at <= toks.len()
{
    if s.at < toks.len() && (toks[s.at] matches Tok::Symbol(c) && is_binop(c)) {
        let c = toks[s.at]->Symbol_0;
        match sp_term(toks, cls, bump(s)) {
            Err(e) => Err(e),
            Ok(s2) => {
                let s3 = emit1(s2, op_cmd(c));
                if stepped(toks, s, s3) {
                    sp_exp_ops(toks, cls, s3)
                } else {
                    Err(CompileError::UnexpectedToken)
                }
            },
        }
    } else {
        Ok(s)
    }
}

/// One expression: a term followed by its operator chain.
pub open spec fn sp_expression(toks: Seq<Tok>, cls: Seq<char>, s: ParseState) -> Result<
    ParseState,
    CompileError,
>
    decreases toks.len() - s.at, 1int,
    when 0 <= s.at <= toks.len()
{
    match sp_term(toks, cls, s) {
        Err(e) => Err(e),
        Ok(s2) => {
            if settled(toks, s, s2) {
                sp_exp_ops(toks, cls, s2)
            } else {
                Err(CompileError::UnexpectedToken)
            }
        },
    }
}

/// The remaining comma-led expressions of a list, with the running count.
pub open spec fn sp_exprs_more(toks: Seq<Tok>, cls: Seq<char>, s: ParseState, n: u16) -> Result<
    (ParseState, u16),
    CompileError,
>
    decreases toks.len() - s.at, 0int,
    when 0 <= s.at <= toks.len()
{
    if s.at < toks.len() && toks[s.at] == Tok::Symbol(',') {
        match sp_expression(toks, cls, bump(s)) {
            Err(e) => Err(e),
            Ok(s2) => {
                if n == u16::MAX {
                    Err(CompileError::TooManyArguments)
                } else if stepped(toks, s, s2) {
                    sp_exprs_more(toks, cls, s2, (n + 1) as u16)
                } else {
                    Err(CompileError::UnexpectedToken)
                }
            },
        }
    } else {
        Ok((s, n))
    }
}

/// A comma-separated expression list with its exact item count; empty
/// exactly when it starts at its closing parenthesis.
pub open spec fn sp_expression_list(toks: Seq<Tok>, cls: Seq<char>, s: ParseState) -> Result<
    (ParseState, u16),
    CompileError,
>
    decreases toks.len() - s.at, 2int,
    when 0 <= s.at <= toks.len()
{
    if s.at < toks.len() && toks[s.at] == Tok::Symbol(')') {
        Ok((s, 0))
    } else {
        match sp_expression(toks, cls, s) {
            Err(e) => Err(e),
            Ok(s2) => {
                if settled(toks, s, s2) {
                    sp_exprs_more(toks, cls, s2, 1)
                } else {
                    Err(CompileError::UnexpectedToken)
                }
            },
        }
    }
}

/// The argument list and call command shared by every call form: the listed
/// expressions, then one `call` whose count is the receiver (when one was
/// pushed) plus the exact number of listed expressions.
pub open spec fn sp_call_args(
    toks: Seq<Tok>,
    cls: Seq<char>,
    s: ParseState,
    name: Seq<char>,
    receiver: u16,
) -> Result<ParseState, CompileError>
    decreases toks.len() - s.at, 0int,
    when 0 <= s.at <= toks.len()
{
    match sp_expect(toks, s, '(') {
        Err(e) => Err(e),
        Ok(s2) => match sp_expression_list(toks, cls, s2) {
            Err(e) => Err(e),
            Ok((s3, k)) => match sp_expect(toks, s3, ')') {
                Err(e) => Err(e),
                Ok(s4) => {
                    if receiver + k > u16::MAX {
                        Err(CompileError::TooManyArguments)
                    } else {
                        Ok(emit1(s4, VmCmd::Call(name, (receiver + k) as u16)))
                    }
                },
            },
        },
    }
}

/// A subroutine call after its leading identifier: a dotted call through an
/// instance variable pushes the receiver and targets the variable's class; a
/// dotted call on an unknown name targets that name as a class; an undotted
/// call pushes the current object and targets the current class.
pub open spec fn sp_call(toks: Seq<Tok>, cls: Seq<char>, s: ParseState, so_far: Seq<char>) -> Result<
    ParseState,
    CompileError,
>
    decreases toks.len() - s.at, 1int,
    when 0 <= s.at <= toks.len()
{
    if s.at < toks.len() && toks[s.at] == Tok::Symbol('.') {
        match sm_resolve(s.sym, so_far) {
            Some(e) => match sp_ident(toks, bump(s)) {
                Err(er) => Err(er),
                Ok((s2, m)) => sp_call_args(
                    toks,
                    cls,
                    emit1(s2, VmCmd::Push(seg_of(e.kind), e.index)),
                    e.typ + "."@ + m,
                    1,
                ),
            },
            None => match sp_ident(toks, bump(s)) {
                Err(er) => Err(er),
                Ok((s2, m)) => sp_call_args(toks, cls, s2, so_far + "."@ + m, 0),
            },
        }
    } else {
        sp_call_args(toks, cls, emit1(s, VmCmd::Push(Segment::POINTER, 0)), cls + "."@ + so_far, 1)
    }
}

/// A `do` statement: the call, then its result discarded into the scratch
/// cell.
pub open spec fn sp_do(toks: Seq<Tok>, cls: Seq<char>, s: ParseState) -> Result<
    ParseState,
    CompileError,
> {
    match sp_ident(toks, bump(s)) {
        Err(e) => Err(e),
        Ok((s2, nm)) => match sp_call(toks, cls, s2, nm) {
            Err(e) => Err(e),
            Ok(s3) => match sp_expect(toks, s3, ';') {
                Err(e) => Err(e),
                Ok(s4) => Ok(emit1(s4, VmCmd::Pop(Segment::TEMP, 0))),
            },
        },
    }
}

/// A `let` statement: without an index the value is popped straight into the
/// resolved segment; with an index the cell pointer is computed first and
/// the value popped through it. Nothing else is emitted.
pub open spec fn sp_let(toks: Seq<Tok>, cls: Seq<char>, s: ParseState) -> Result<
    ParseState,
    CompileError,
> {
    match sp_ident(toks, bump(s)) {
        Err(e) => Err(e),
        Ok((s2, nm)) => match sm_resolve(s.sym, nm) {
            None => Err(CompileError::UnresolvedIdentifier),
            Some(en) => {
                if s2.at < toks.len() && toks[s2.at] == Tok::Symbol('[') {
                    let s3 = bump(emit1(s2, VmCmd::Push(seg_of(en.kind), en.index)));
                    match sp_expression(toks, cls, s3) {
                        Err(e) => Err(e),
                        Ok(s4) => match sp_expect(toks, s4, ']') {
                            Err(e) => Err(e),
                            Ok(s5) => {
                                let s6 = emitn(
                                    s5,
                                    seq![
                                        VmCmd::Arith(Command::ADD),
                                        VmCmd::Pop(Segment::POINTER, 1),
                                    ],
                                );
                                match sp_expect(toks, s6, '=') {
                                    Err(e) => Err(e),
                                    Ok(s7) => match sp_expression(toks, cls, s7) {
                                        Err(e) => Err(e),
                                        Ok(s8) => sp_expect(
                                            toks,
                                            emit1(s8, VmCmd::Pop(Segment::THAT, 0)),
                                            ';',
                                        ),
                                    },
                                }
                            },
                        },
                    }
                } else {
                    match sp_expect(toks, s2, '=') {
                        Err(e) => Err(e),
                        Ok(s3) => match sp_expression(toks, cls, s3) {
                            Err(e) => Err(e),
                            Ok(s4) => sp_expect(
                                toks,
                                emit1(s4, VmCmd::Pop(seg_of(en.kind), en.index)),
                                ';',
                            ),
                        },
                    }
                }
            },
        },
    }
}

/// A `return` statement: a void return pushes the literal zero.
pub open spec fn sp_return(toks: Seq<Tok>, cls: Seq<char>, s: ParseState) -> Result<
    ParseState,
    CompileError,
> {
    let s1 = bump(s);
    if s1.at < toks.len() && toks[s1.at] == Tok::Symbol(';') {
        sp_expect(
            toks,
            emitn(s1, seq![VmCmd::Push(Segment::CONSTANT, 0u16), VmCmd::Return]),
            ';',
        )
    } else {
        match sp_expression(toks, cls, s1) {
            Err(e) => Err(e),
            Ok(s2) => sp_expect(toks, emit1(s2, VmCmd::Return), ';'),
        }
    }
}

/// A `while` statement: top label, condition, negation, conditional jump to
/// the continue label, body, jump back, continue label; one fresh counter
/// value per loop.
pub open spec fn sp_while(toks: Seq<Tok>, cls: Seq<char>, s: ParseState) -> Result<
    ParseState,
    CompileError,
>
    decreases toks.len() - s.at, 1int,
    when 0 <= s.at <= toks.len()
{
    let s1 = bump(s);
    if s.lc == u16::MAX {
        Err(CompileError::TooManyLoops)
    } else {
        let c = s.lc;
        let s2 = ParseState {
            lc: (c + 1) as u16,
            out: s1.out.push(VmCmd::Label(while_top(c))),
            ..s1
        };
        match sp_expect(toks, s2, '(') {
            Err(e) => Err(e),
            Ok(s3) => match sp_expression(toks, cls, s3) {
                Err(e) => Err(e),
                Ok(s4) => {
                    let s5 = emitn(
                        s4,
                        seq![VmCmd::Arith(Command::NOT), VmCmd::IfGoto(while_cont(c))],
                    );
                    match sp_expect(toks, s5, ')') {
                        Err(e) => Err(e),
                        Ok(s6) => match sp_expect(toks, s6, '{') {
                            Err(e) => Err(e),
                            Ok(s7) => {
                                if !stepped(toks, s, s7) {
                                    Err(CompileError::UnexpectedToken)
                                } else {
                                    match sp_statements(toks, cls, s7) {
                                        Err(e) => Err(e),
                                        Ok(s8) => match sp_expect(
                                            toks,
                                            emit1(s8, VmCmd::Goto(while_top(c))),
                                            '}',
                                        ) {
                                            Err(e) => Err(e),
                                            Ok(s9) => Ok(
                                                emit1(s9, VmCmd::Label(while_cont(c))),
                                            ),
                                        },
                                    }
                                }
                            },
                        },
                    }
                },
            },
        }
    }
}

/// An `if` statement: condition, negation, jump to the else label, then
/// branch, jump to the continue label, else label, optional else branch,
/// continue label; one fresh counter value per statement.
pub open spec fn sp_if(toks: Seq<Tok>, cls: Seq<char>, s: ParseState) -> Result<
    ParseState,
    CompileError,
>
    decreases toks.len() - s.at, 1int,
    when 0 <= s.at <= toks.len()
{
    let s1 = bump(s);
    if s.lc == u16::MAX {
        Err(CompileError::TooManyLoops)
    } else {
        let c = s.lc;
        let s2 = ParseState { lc: (c + 1) as u16, ..s1 };
        match sp_expect(toks, s2, '(') {
            Err(e) => Err(e),
            Ok(s3) => match sp_expression(toks, cls, s3) {
                Err(e) => Err(e),
                Ok(s4) => {
                    let s5 = emitn(
                        s4,
                        seq![VmCmd::Arith(Command::NOT), VmCmd::IfGoto(if_else_label(c))],
                    );
                    match sp_expect(toks, s5, ')') {
                        Err(e) => Err(e),
                        Ok(s6) => match sp_expect(toks, s6, '{') {
                            Err(e) => Err(e),
                            Ok(s7) => {
                                if !stepped(toks, s, s7) {
                                    Err(CompileError::UnexpectedToken)
                                } else {
                                    match sp_statements(toks, cls, s7) {
                                        Err(e) => Err(e),
                                        Ok(s8) => match sp_expect(toks, s8, '}') {
                                            Err(e) => Err(e),
                                            Ok(s9) => {
                                                let s10 = emitn(
                                                    s9,
                                                    seq![
                                                        VmCmd::Goto(if_cont_label(c)),
                                                        VmCmd::Label(if_else_label(c)),
                                                    ],
                                                );
                                                sp_if_else(toks, cls, s, s10, c)
                                            },
                                        },
                                    }
                                }
                            },
                        },
                    }
                },
            },
        }
    }
}

/// The optional else branch of an `if`, then the continue label.
pub open spec fn sp_if_else(
    toks: Seq<Tok>,
    cls: Seq<char>,
    entry: ParseState,
    s: ParseState,
    c: u16,
) -> Result<ParseState, CompileError>
    decreases toks.len() - entry.at, 0int,
    when 0 <= entry.at <= toks.len()
{
    if s.at < toks.len() && toks[s.at] == Tok::Keyword(KeyWord::ELSE) {
        match sp_expect(toks, bump(s), '{') {
            Err(e) => Err(e),
            Ok(s2) => {
                if !stepped(toks, entry, s2) {
                    Err(CompileError::UnexpectedToken)
                } else {
                    match sp_statements(toks, cls, s2) {
                        Err(e) => Err(e),
                        Ok(s3) => match sp_expect(toks, s3, '}') {
                            Err(e) => Err(e),
                            Ok(s4) => Ok(emit1(s4, VmCmd::Label(if_cont_label(c)))),
                        },
                    }
                }
            },
        }
    } else {
        Ok(emit1(s, VmCmd::Label(if_cont_label(c))))
    }
}

/// A run of statements, ending at the first token that is not a statement
/// keyword; an unknown statement keyword is a structural error.
pub open spec fn sp_statements(toks: Seq<Tok>, cls: Seq<char>, s: ParseState) -> Result<
    ParseState,
    CompileError,
>
    decreases toks.len() - s.at, 2int,
    when 0 <= s.at <= toks.len()
{
    if s.at < toks.len() && toks[s.at] matches Tok::Keyword(k) {
        let step = if toks[s.at] == Tok::Keyword(KeyWord::LET) {
            sp_let(toks, cls, s)
        } else if toks[s.at] == Tok::Keyword(KeyWord::IF) {
            sp_if(toks, cls, s)
        } else if toks[s.at] == Tok::Keyword(KeyWord::WHILE) {
            sp_while(toks, cls, s)
        } else if toks[s.at] == Tok::Keyword(KeyWord::DO) {
            sp_do(toks, cls, s)
        } else if toks[s.at] == Tok::Keyword(KeyWord::RETURN) {
            sp_return(toks, cls, s)
        } else {
            Err(CompileError::UnexpectedToken)
        };
        match step {
            Err(e) => Err(e),
            Ok(s2) => {
                if stepped(toks, s, s2) {
                    sp_statements(toks, cls, s2)
                } else {
                    Err(CompileError::UnexpectedToken)
                }
            },
        }
    } else {
        Ok(s)
    }
}

/// The remaining comma-led names of one variable declaration, each defined
/// under the declaration's type and kind, then the closing semicolon.
pub open spec fn sp_decl_names(
    toks: Seq<Tok>,
    s: ParseState,
    typ: Seq<char>,
    kind: IdentifierKind,
) -> Result<ParseState, CompileError>
    decreases toks.len() - s.at,
    when 0 <= s.at <= toks.len()
{
    if s.at < toks.len() && toks[s.at] == Tok::Symbol(',') {
        match sp_ident(toks, bump(s)) {
            Err(e) => Err(e),
            Ok((s2, nm)) => {
                if sm_count(s2.sym, kind) == u16::MAX {
                    Err(CompileError::TooManySymbols)
                } else {
                    sp_decl_names(
                        toks,
                        ParseState { sym: sm_define(s2.sym, nm, typ, kind), ..s2 },
                        typ,
                        kind,
                    )
                }
            },
        }
    } else {
        sp_expect(toks, s, ';')
    }
}

/// One class-level variable declaration: `static` or `field`, a type, and
/// one or more names entering the class scope under consecutive indices.
/// Nothing is emitted.
pub open spec fn sp_class_var_dec(toks: Seq<Tok>, s: ParseState) -> Result<
    ParseState,
    CompileError,
> {
    let kind = if toks[s.at] == Tok::Keyword(KeyWord::STATIC) {
        IdentifierKind::STATIC
    } else {
        IdentifierKind::FIELD
    };
    if !(toks[s.at] == Tok::Keyword(KeyWord::STATIC) || toks[s.at] == Tok::Keyword(
        KeyWord::FIELD,
    )) {
        Err(CompileError::UnexpectedToken)
    } else {
        match sp_type(toks, bump(s)) {
            Err(e) => Err(e),
            Ok((s2, typ)) => match sp_ident(toks, s2) {
                Err(e) => Err(e),
                Ok((s3, nm)) => {
                    if sm_count(s3.sym, kind) == u16::MAX {
                        Err(CompileError::TooManySymbols)
                    } else {
                        sp_decl_names(
                            toks,
                            ParseState { sym: sm_define(s3.sym, nm, typ, kind), ..s3 },
                            typ,
                            kind,
                        )
                    }
                },
            },
        }
    }
}

/// One subroutine-level variable declaration: `var`, a type, and one or
/// more names entering the subroutine scope as Locals.
pub open spec fn sp_var_dec(toks: Seq<Tok>, s: ParseState) -> Result<ParseState, CompileError> {
    match sp_type(toks, bump(s)) {
        Err(e) => Err(e),
        Ok((s2, typ)) => match sp_ident(toks, s2) {
            Err(e) => Err(e),
            Ok((s3, nm)) => {
                if sm_count(s3.sym, IdentifierKind::VAR) == u16::MAX {
                    Err(CompileError::TooManySymbols)
                } else {
                    sp_decl_names(
                        toks,
                        ParseState {
                            sym: sm_define(s3.sym, nm, typ, IdentifierKind::VAR),
                            ..s3
                        },
                        typ,
                        IdentifierKind::VAR,
                    )
                }
            },
        },
    }
}

/// The parameters of a parameter list, each entering the subroutine scope as
/// an Argument under consecutive indices.
pub open spec fn sp_params(toks: Seq<Tok>, s: ParseState) -> Result<ParseState, CompileError>
    decreases toks.len() - s.at, 1int,
    when 0 <= s.at <= toks.len()
{
    match sp_type(toks, s) {
        Err(e) => Err(e),
        Ok((s2, typ)) => match sp_ident(toks, s2) {
            Err(e) => Err(e),
            Ok((s3, nm)) => {
                if sm_count(s3.sym, IdentifierKind::ARG) == u16::MAX {
                    Err(CompileError::TooManySymbols)
                } else {
                    sp_params_rest(
                        toks,
                        ParseState { sym: sm_define(s3.sym, nm, typ, IdentifierKind::ARG), ..s3 },
                    )
                }
            },
        },
    }
}

/// What follows one parameter: a comma and more parameters, or the end of
/// the list.
pub open spec fn sp_params_rest(toks: Seq<Tok>, s: ParseState) -> Result<ParseState, CompileError>
    decreases toks.len() - s.at, 0int,
    when 0 <= s.at <= toks.len()
{
    if s.at < toks.len() && toks[s.at] == Tok::Symbol(',') {
        sp_params(toks, bump(s))
    } else {
        Ok(s)
    }
}

/// A parameter list, empty exactly when it starts at its closing
/// parenthesis, which the caller consumes. Nothing is emitted.
pub open spec fn sp_parameter_list(toks: Seq<Tok>, s: ParseState) -> Result<
    ParseState,
    CompileError,
> {
    if s.at < toks.len() && toks[s.at] == Tok::Symbol(')') {
        Ok(s)
    } else {
        sp_params(toks, s)
    }
}

/// The `var` declarations at the head of a subroutine body.
pub open spec fn sp_var_decs(toks: Seq<Tok>, s: ParseState) -> Result<ParseState, CompileError>
    decreases toks.len() - s.at,
    when 0 <= s.at <= toks.len()
{
    if s.at < toks.len() && toks[s.at] == Tok::Keyword(KeyWord::VAR) {
        match sp_var_dec(toks, s) {
            Err(e) => Err(e),
            Ok(s2) => {
                if stepped(toks, s, s2) {
                    sp_var_decs(toks, s2)
                } else {
                    Err(CompileError::UnexpectedToken)
                }
            },
        }
    } else {
        Ok(s)
    }
}

/// One whole subroutine: the scope and the label counter restart at zero
/// first; a method's implicit receiver takes argument index zero; after the
/// header, whose local count is the number of declared Locals, a constructor
/// allocates one cell per class field, a method moves argument zero into the
/// object pointer, and a plain function has no prologue at all.
pub open spec fn sp_subroutine(toks: Seq<Tok>, cls: Seq<char>, s: ParseState) -> Result<
    ParseState,
    CompileError,
> {
    let kw = toks[s.at];
    let sym0 = sm_reset(s.sym);
    let s1 = ParseState {
        at: s.at + 1,
        sym: if kw == Tok::Keyword(KeyWord::METHOD) {
            sm_define(sym0, "this"@, cls, IdentifierKind::ARG)
        } else {
            sym0
        },
        lc: 0,
        ..s
    };
    if s1.at >= toks.len() {
        Err(CompileError::UnexpectedEnd)
    } else {
        // the return category (void or a type) is consumed unrecorded
        match sp_ident(toks, bump(s1)) {
            Err(e) => Err(e),
            Ok((s2, nm)) => match sp_expect(toks, s2, '(') {
                Err(e) => Err(e),
                Ok(s3) => match sp_parameter_list(toks, s3) {
                    Err(e) => Err(e),
                    Ok(s4) => match sp_expect(toks, s4, ')') {
                        Err(e) => Err(e),
                        Ok(s5) => match sp_expect(toks, s5, '{') {
                            Err(e) => Err(e),
                            Ok(s6) => match sp_var_decs(toks, s6) {
                                Err(e) => Err(e),
                                Ok(s7) => {
                                    let header = VmCmd::Function(
                                        cls + "."@ + nm,
                                        sm_count(s7.sym, IdentifierKind::VAR),
                                    );
                                    let prologue = if kw == Tok::Keyword(KeyWord::CONSTRUCTOR) {
                                        ctor_prologue(sm_count(s7.sym, IdentifierKind::FIELD))
                                    } else if kw == Tok::Keyword(KeyWord::METHOD) {
                                        method_prologue()
                                    } else {
                                        Seq::empty()
                                    };
                                    let s8 = emitn(emit1(s7, header), prologue);
                                    if !settled(toks, s, s8) {
                                        Err(CompileError::UnexpectedToken)
                                    } else {
                                        match sp_statements(toks, cls, s8) {
                                            Err(e) => Err(e),
                                            Ok(s9) => sp_expect(toks, s9, '}'),
                                        }
                                    }
                                },
                            },
                        },
                    },
                },
            },
        }
    }
}

/// The class-level variable declarations of a class body.
pub open spec fn sp_class_vars(toks: Seq<Tok>, s: ParseState) -> Result<ParseState, CompileError>
    decreases toks.len() - s.at,
    when 0 <= s.at <= toks.len()
{
    if s.at < toks.len() && (toks[s.at] == Tok::Keyword(KeyWord::STATIC) || toks[s.at]
        == Tok::Keyword(KeyWord::FIELD)) {
        match sp_class_var_dec(toks, s) {
            Err(e) => Err(e),
            Ok(s2) => {
                if stepped(toks, s, s2) {
                    sp_class_vars(toks, s2)
                } else {
                    Err(CompileError::UnexpectedToken)
                }
            },
        }
    } else {
        Ok(s)
    }
}

/// The subroutines of a class body, compiled in source order.
pub open spec fn sp_subs(toks: Seq<Tok>, cls: Seq<char>, s: ParseState) -> Result<
    ParseState,
    CompileError,
>
    decreases toks.len() - s.at,
    when 0 <= s.at <= toks.len()
{
    if s.at < toks.len() && (toks[s.at] == Tok::Keyword(KeyWord::CONSTRUCTOR) || toks[s.at]
        == Tok::Keyword(KeyWord::FUNCTION) || toks[s.at] == Tok::Keyword(KeyWord::METHOD)) {
        match sp_subroutine(toks, cls, s) {
            Err(e) => Err(e),
            Ok(s2) => {
                if stepped(toks, s, s2) {
                    sp_subs(toks, cls, s2)
                } else {
                    Err(CompileError::UnexpectedToken)
                }
            },
        }
    } else {
        Ok(s)
    }
}

/// One whole class: the `class` keyword, the class name, the class-level
/// declarations (which emit nothing), then every subroutine in source order,
/// and the closing brace, where the cursor ends. The result carries the
/// class name that the engine keeps.
pub open spec fn sp_class(toks: Seq<Tok>, s: ParseState) -> Result<
    (ParseState, Seq<char>),
    CompileError,
> {
    if s.at >= toks.len() {
        Err(CompileError::UnexpectedEnd)
    } else if toks[s.at] != Tok::Keyword(KeyWord::CLASS) {
        Err(CompileError::UnexpectedToken)
    } else {
        match sp_ident(toks, bump(s)) {
            Err(e) => Err(e),
            Ok((s2, nm)) => match sp_expect(toks, s2, '{') {
                Err(e) => Err(e),
                Ok(s3) => {
                    if !settled(toks, s, s3) {
                        Err(CompileError::UnexpectedToken)
                    } else {
                        match sp_class_vars(toks, s3) {
                            Err(e) => Err(e),
                            Ok(s4) => {
                                if !settled(toks, s, s4) {
                                    Err(CompileError::UnexpectedToken)
                                } else {
                                    match sp_subs(toks, nm, s4) {
                                        Err(e) => Err(e),
                                        Ok(s5) => match sp_expect(toks, s5, '}') {
                                            Err(e) => Err(e),
                                            Ok(s6) => Ok((s6, nm)),
                                        },
                                    }
                                }
                            },
                        }
                    }
                },
            },
        }
    }
}

// ---------------------------------------------------------------------------
// The engine
// ---------------------------------------------------------------------------
/// The single-pass recursive-descent compiler: it pulls tokens one at a time,
/// pushes declarations into the symbol table as they are parsed, and emits
/// stack-machine commands as it goes; no syntax tree is built.
pub struct CompilationEngine {
    tokenizer: JackTokenizer,
    vm_writer: VMWriter,
    symbol_table: SymbolTable,
    class_name: String,
    loop_counter: u16,
}

impl CompilationEngine {
    pub closed spec fn toks(self) -> Seq<Tok> {
        self.tokenizer.toks()
    }

    pub closed spec fn at(self) -> int {
        self.tokenizer.at()
    }

    pub closed spec fn out(self) -> Seq<VmCmd> {
        self.vm_writer@
    }

    pub closed spec fn cls(self) -> Seq<char> {
        self.class_name@
    }

    pub closed spec fn lc(self) -> u16 {
        self.loop_counter
    }

    pub closed spec fn st(self) -> SymbolTable {
        self.symbol_table
    }

    /// The engine's whole mutable parse state, as the grammar spec sees it.
    pub closed spec fn pst(self) -> ParseState {
        ParseState {
            at: self.at(),
            out: self.out(),
            sym: model_of(self.st()),
            lc: self.lc(),
        }
    }

    pub closed spec fn wf(self) -> bool {
        self.tokenizer.wf() && self.st().wf()
    }

    /// The token under the cursor.
    pub open spec fn cur(self) -> Tok {
        self.toks()[self.at()]
    }

    /// What every parsing step preserves: the token sequence, the cursor
    /// staying in range and never moving backwards, and the emitted commands
    /// only growing.
    pub open spec fn frame(pre: Self, post: Self) -> bool {
        &&& post.wf()
        &&& post.toks() == pre.toks()
        &&& pre.at() <= post.at() <= pre.toks().len()
        &&& post.cls() == pre.cls()
        &&& extends(pre.out(), post.out())
    }

    /// Builds an engine over the given source text; fails exactly when the
    /// text is lexically malformed.
    pub fn new(source: String) -> (r: Result<CompilationEngine, CompileError>)
        ensures
            (r matches Ok(en) ==> {
                &&& spec_tokens(source@) == Ok::<Seq<Tok>, CompileError>(en.toks())
                &&& en.wf()
                &&& en.at() == 0
                &&& en.out() == Seq::<VmCmd>::empty()
                &&& en.lc() == 0
            }),
            (r matches Err(e) ==> spec_tokens(source@) == Err::<Seq<Tok>, CompileError>(e)),
    {
        match JackTokenizer::new(source) {
            Ok(tokenizer) => Ok(
                CompilationEngine {
                    tokenizer,
                    vm_writer: VMWriter::new(),
                    symbol_table: SymbolTable::new(),
                    class_name: String::new(),
                    loop_counter: 0,
                },
            ),
            Err(e) => Err(e),
        }
    }

    /// The emitted program, one command line per element.
    pub fn vm_output(&self) -> (r: Vec<String>)
        ensures
            r@.len() == self.out().len(),
            forall|i: int|
                0 <= i < r@.len() ==> #[trigger] r@[i]@ == crate::vm_writer::line_of(self.out()[i]),
    {
        self.vm_writer.output()
    }

    // -----------------------------------------------------------------------
    // Small parsing steps
    // -----------------------------------------------------------------------
    /// Whether the current token is the given symbol.
    fn peek_symbol(&self, c: char) -> (r: bool)
        requires
            self.wf(),
        ensures
            r == (self.at() < self.toks().len() && self.cur() == Tok::Symbol(c)),
    {
        if !self.tokenizer.has_current() {
            return false;
        }
        if !matches!(self.tokenizer.token_type(), TokenType::SYMBOL) {
            return false;
        }
        self.tokenizer.symbol() == c
    }

    /// Whether the current token is the given keyword.
    fn peek_keyword(&self, k: KeyWord) -> (r: bool)
        requires
            self.wf(),
        ensures
            r == (self.at() < self.toks().len() && self.cur() == Tok::Keyword(k)),
    {
        if !self.tokenizer.has_current() {
            return false;
        }
        if !matches!(self.tokenizer.token_type(), TokenType::KEYWORD) {
            return false;
        }
        self.tokenizer.key_word() == k
    }

    /// Consumes the given symbol, failing on anything else.
    fn expect_symbol(&mut self, c: char) -> (r: Result<(), CompileError>)
        requires
            old(self).wf(),
        ensures
            final(self).wf(),
            final(self).toks() == old(self).toks(),
            final(self).out() == old(self).out(),
            final(self).st() == old(self).st(),
            final(self).cls() == old(self).cls(),
            final(self).lc() == old(self).lc(),
            (r matches Ok(()) ==> {
                &&& old(self).at() < old(self).toks().len()
                &&& old(self).cur() == Tok::Symbol(c)
                &&& final(self).at() == old(self).at() + 1
                &&& sp_expect(old(self).toks(), old(self).pst(), c) == Ok::<
                    ParseState,
                    CompileError,
                >(final(self).pst())
            }),
            (r matches Err(e) ==> *final(self) == *old(self) && sp_expect(
                old(self).toks(),
                old(self).pst(),
                c,
            ) == Err::<ParseState, CompileError>(e)),
    {
        if !self.tokenizer.has_current() {
            return Err(CompileError::UnexpectedEnd);
        }
        if matches!(self.tokenizer.token_type(), TokenType::SYMBOL) && self.tokenizer.symbol()
            == c {
            self.tokenizer.advance();
            Ok(())
        } else {
            Err(CompileError::UnexpectedToken)
        }
    }

    /// Consumes an identifier and hands its text back.
    fn read_identifier(&mut self) -> (r: Result<String, CompileError>)
        requires
            old(self).wf(),
        ensures
            final(self).wf(),
            final(self).toks() == old(self).toks(),
            final(self).out() == old(self).out(),
            final(self).st() == old(self).st(),
            final(self).cls() == old(self).cls(),
            final(self).lc() == old(self).lc(),
            (r matches Ok(name) ==> {
                &&& old(self).at() < old(self).toks().len()
                &&& old(self).cur() == Tok::Identifier(name@)
                &&& final(self).at() == old(self).at() + 1
                &&& sp_ident(old(self).toks(), old(self).pst()) == Ok::<
                    (ParseState, Seq<char>),
                    CompileError,
                >((final(self).pst(), name@))
            }),
            (r matches Err(e) ==> *final(self) == *old(self) && sp_ident(
                old(self).toks(),
                old(self).pst(),
            ) == Err::<(ParseState, Seq<char>), CompileError>(e)),
    {
        if !self.tokenizer.has_current() {
            return Err(CompileError::UnexpectedEnd);
        }
        if matches!(self.tokenizer.token_type(), TokenType::IDENTIFIER) {
            let name = self.tokenizer.identifier();
            self.tokenizer.advance();
            Ok(name)
        } else {
            Err(CompileError::UnexpectedToken)
        }
    }
}

/// The text of a type position: a primitive keyword or a class name.
pub open spec fn type_text(t: Tok) -> Option<Seq<char>> {
    match t {
        Tok::Keyword(KeyWord::INT) => Some("int"@),
        Tok::Keyword(KeyWord::CHAR) => Some("char"@),
        Tok::Keyword(KeyWord::BOOLEAN) => Some("boolean"@),
        Tok::Identifier(w) => Some(w),
        _ => None,
    }
}

impl CompilationEngine {
    /// Consumes a type token and hands back its text.
    fn read_type_name(&mut self) -> (r: Result<String, CompileError>)
        requires
            old(self).wf(),
        ensures
            final(self).wf(),
            final(self).toks() == old(self).toks(),
            final(self).out() == old(self).out(),
            final(self).st() == old(self).st(),
            final(self).cls() == old(self).cls(),
            final(self).lc() == old(self).lc(),
            (r matches Ok(name) ==> {
                &&& old(self).at() < old(self).toks().len()
                &&& type_text(old(self).cur()) == Some(name@)
                &&& final(self).at() == old(self).at() + 1
                &&& sp_type(old(self).toks(), old(self).pst()) == Ok::<
                    (ParseState, Seq<char>),
                    CompileError,
                >((final(self).pst(), name@))
            }),
            (r matches Err(e) ==> *final(self) == *old(self) && sp_type(
                old(self).toks(),
                old(self).pst(),
            ) == Err::<(ParseState, Seq<char>), CompileError>(e)),
    {
        if !self.tokenizer.has_current() {
            return Err(CompileError::UnexpectedEnd);
        }
        match self.tokenizer.token_type() {
            TokenType::IDENTIFIER => {
                let name = self.tokenizer.identifier();
                self.tokenizer.advance();
                Ok(name)
            },
            TokenType::KEYWORD => {
                let k = self.tokenizer.key_word();
                let text = match k {
                    KeyWord::INT => String::from_str("int"),
                    KeyWord::CHAR => String::from_str("char"),
                    KeyWord::BOOLEAN => String::from_str("boolean"),
                    _ => {
                        return Err(CompileError::UnexpectedToken);
                    },
                };
                self.tokenizer.advance();
                Ok(text)
            },
            _ => Err(CompileError::UnexpectedToken),
        }
    }
}

/// The binary operators of an expression.
pub open spec fn is_binop(c: char) -> bool {
    ||| c == '+'
    ||| c == '-'
    ||| c == '*'
    ||| c == '/'
    ||| c == '&'
    ||| c == '|'
    ||| c == '<'
    ||| c == '>'
    ||| c == '='
}

impl CompilationEngine {
    /// Whether the cursor stands on a binary operator symbol.
    pub open spec fn at_binop(self) -> bool {
        &&& self.at() < self.toks().len()
        &&& (self.cur() matches Tok::Symbol(c) && is_binop(c))
    }

    /// The current token, when it is a binary operator symbol.
    fn peek_binop(&self) -> (r: Option<char>)
        requires
            self.wf(),
        ensures
            (r matches Some(c) ==> self.at() < self.toks().len() && self.cur() == Tok::Symbol(c)
                && is_binop(c)),
            r is None ==> !self.at_binop(),
    {
        if !self.tokenizer.has_current() {
            return None;
        }
        if !matches!(self.tokenizer.token_type(), TokenType::SYMBOL) {
            return None;
        }
        let c = self.tokenizer.symbol();
        if c == '+' || c == '-' || c == '*' || c == '/' || c == '&' || c == '|' || c == '<' || c
            == '>' || c == '=' {
            Some(c)
        } else {
            None
        }
    }

    /// Compiles one term: a literal, a keyword constant, a variable
    /// reference, an array access, a subroutine call, a unary operator
    /// application or a parenthesized sub-expression.
    #[verifier::rlimit(60)]
    fn compile_term(&mut self) -> (r: Result<(), CompileError>)
        requires
            old(self).wf(),
        ensures
            Self::frame(*old(self), *final(self)),
            (r matches Err(e) ==> engine_error(e)),
            final(self).st() == old(self).st(),
            final(self).lc() == old(self).lc(),
            (r matches Ok(()) ==> {
                let app = appended(old(self).out(), final(self).out());
                &&& old(self).at() < old(self).toks().len()
                &&& final(self).at() > old(self).at()
                &&& app.len() >= 1
                &&& (old(self).cur() matches Tok::IntConst(v) ==> app == seq![
                    VmCmd::Push(Segment::CONSTANT, v),
                ] && final(self).at() == old(self).at() + 1)
                &&& (old(self).cur() matches Tok::StringConst(sv) ==> app == string_const_cmds(sv)
                    && final(self).at() == old(self).at() + 1)
                &&& (old(self).cur() == Tok::Keyword(KeyWord::TRUE) ==> app == seq![
                    VmCmd::Push(Segment::CONSTANT, 0u16),
                    VmCmd::Arith(Command::NOT),
                ] && final(self).at() == old(self).at() + 1)
                &&& ((old(self).cur() == Tok::Keyword(KeyWord::FALSE) || old(self).cur()
                    == Tok::Keyword(KeyWord::NULL)) ==> app == seq![
                    VmCmd::Push(Segment::CONSTANT, 0u16),
                ] && final(self).at() == old(self).at() + 1)
                &&& (old(self).cur() == Tok::Keyword(KeyWord::THIS) ==> app == seq![
                    VmCmd::Push(Segment::POINTER, 0u16),
                ] && final(self).at() == old(self).at() + 1)
                &&& (old(self).cur() == Tok::Symbol('-') ==> app.last() == VmCmd::Arith(
                    Command::NEG,
                ))
                &&& (old(self).cur() == Tok::Symbol('~') ==> app.last() == VmCmd::Arith(
                    Command::NOT,
                ))
                &&& (old(self).cur() matches Tok::Identifier(nm) ==> {
                    let next_sym = |c: char|
                        old(self).at() + 1 < old(self).toks().len() && old(self).toks()[old(
                            self,
                        ).at() + 1] == Tok::Symbol(c);
                    &&& (!(next_sym('(') || next_sym('.') || next_sym('[')) ==> (old(
                        self,
                    ).st().resolve(nm) matches Some(e) && app == seq![
                        VmCmd::Push(seg_of(e.kind), e.index),
                    ] && final(self).at() == old(self).at() + 1))
                    &&& (next_sym('[') ==> (old(self).st().resolve(nm) matches Some(e) && app[0]
                        == VmCmd::Push(seg_of(e.kind), e.index) && app.len() >= 4 && app[app.len()
                        - 3] == VmCmd::Arith(Command::ADD) && app[app.len() - 2] == VmCmd::Pop(
                        Segment::POINTER,
                        1,
                    ) && app.last() == VmCmd::Push(Segment::THAT, 0)))
                })
            }),
            (r matches Ok(()) ==> sp_term(old(self).toks(), old(self).cls(), old(self).pst())
                == Ok::<ParseState, CompileError>(final(self).pst())),
            (r matches Err(e) ==> sp_term(old(self).toks(), old(self).cls(), old(self).pst())
                == Err::<ParseState, CompileError>(e)),
        decreases self.toks().len() - self.at(), 0int,
    {
        let ghost pre = *self;
        if !self.tokenizer.has_current() {
            return Err(CompileError::UnexpectedEnd);
        }
        match self.tokenizer.token_type() {
            TokenType::INT_CONST => {
                let v = self.tokenizer.int_val();
                self.tokenizer.advance();
                self.vm_writer.write_push(Segment::CONSTANT, v);
                proof {
                    lemma_extends_push(pre.out(), VmCmd::Push(Segment::CONSTANT, v));
                    assert(self.pst() =~~= emit1(bump(pre.pst()), VmCmd::Push(Segment::CONSTANT, v)));
                }
                Ok(())
            },
            TokenType::STRING_CONST => {
                let text = self.tokenizer.string_val();
                self.tokenizer.advance();
                self.compile_string_const(&text);
                proof {
                    assert(self.pst() =~~= emitn(bump(pre.pst()), string_const_cmds(text@)));
                }
                Ok(())
            },
            TokenType::KEYWORD => {
                let k = self.tokenizer.key_word();
                match k {
                    KeyWord::TRUE => {
                        self.tokenizer.advance();
                        self.vm_writer.write_push(Segment::CONSTANT, 0);
                        let ghost mid = self.out();
                        self.vm_writer.write_arithmetic(Command::NOT);
                        proof {
                            lemma_extends_push(pre.out(), VmCmd::Push(Segment::CONSTANT, 0u16));
                            lemma_extends_push(mid, VmCmd::Arith(Command::NOT));
                            lemma_extends_trans(pre.out(), mid, self.out());
                            assert(appended(pre.out(), self.out()) =~= seq![
                                VmCmd::Push(Segment::CONSTANT, 0u16),
                                VmCmd::Arith(Command::NOT),
                            ]);
                            assert(self.pst() =~~= emitn(
                                bump(pre.pst()),
                                seq![
                                    VmCmd::Push(Segment::CONSTANT, 0u16),
                                    VmCmd::Arith(Command::NOT),
                                ],
                            ));
                        }
                        Ok(())
                    },
                    KeyWord::FALSE | KeyWord::NULL => {
                        self.tokenizer.advance();
                        self.vm_writer.write_push(Segment::CONSTANT, 0);
                        proof {
                            lemma_extends_push(pre.out(), VmCmd::Push(Segment::CONSTANT, 0u16));
                            assert(self.pst() =~~= emit1(
                                bump(pre.pst()),
                                VmCmd::Push(Segment::CONSTANT, 0),
                            ));
                        }
                        Ok(())
                    },
                    KeyWord::THIS => {
                        self.tokenizer.advance();
                        self.vm_writer.write_push(Segment::POINTER, 0);
                        proof {
                            lemma_extends_push(pre.out(), VmCmd::Push(Segment::POINTER, 0u16));
                            assert(self.pst() =~~= emit1(
                                bump(pre.pst()),
                                VmCmd::Push(Segment::POINTER, 0),
                            ));
                        }
                        Ok(())
                    },
                    _ => Err(CompileError::UnexpectedToken),
                }
            },
            TokenType::SYMBOL => {
                let c = self.tokenizer.symbol();
                if c == '-' || c == '~' {
                    self.tokenizer.advance();
                    proof {
                        assert(self.pst() =~~= bump(pre.pst()));
                    }
                    match self.compile_term() {
                        Ok(()) => {},
                        Err(e) => {
                            return Err(e);
                        },
                    }
                    let ghost mid = self.out();
                    let ghost sub = self.pst();
                    let op = if c == '-' {
                        Command::NEG
                    } else {
                        Command::NOT
                    };
                    self.vm_writer.write_arithmetic(op);
                    proof {
                        lemma_extends_push(mid, VmCmd::Arith(op));
                        lemma_extends_trans(pre.out(), mid, self.out());
                        assert(self.pst() =~~= emit1(sub, VmCmd::Arith(op)));
                    }
                    Ok(())
                } else if c == '(' {
                    self.tokenizer.advance();
                    proof {
                        assert(self.pst() =~~= bump(pre.pst()));
                    }
                    match self.compile_expression() {
                        Ok(()) => {},
                        Err(e) => {
                            return Err(e);
                        },
                    }
                    match self.expect_symbol(')') {
                        Ok(()) => {},
                        Err(e) => {
                            return Err(e);
                        },
                    }
                    Ok(())
                } else {
                    Err(CompileError::UnexpectedToken)
                }
            },
            TokenType::IDENTIFIER => {
                let name = self.tokenizer.identifier();
                self.tokenizer.advance();
                proof {
                    assert(self.pst() =~~= bump(pre.pst()));
                }
                if self.peek_symbol('(') || self.peek_symbol('.') {
                    match self.compile_subroutine_call(name) {
                        Ok(()) => Ok(()),
                        Err(e) => Err(e),
                    }
                } else {
                    let kind = match self.symbol_table.kind_of(name.clone()) {
                        Some(k) => k,
                        None => {
                            return Err(CompileError::UnresolvedIdentifier);
                        },
                    };
                    let index = match self.symbol_table.index_of(name) {
                        Some(i) => i,
                        None => {
                            return Err(CompileError::UnresolvedIdentifier);
                        },
                    };
                    let segment = seg_of_x(kind);
                    self.vm_writer.write_push(segment, index);
                    let ghost mid = *self;
                    proof {
                        lemma_extends_push(pre.out(), VmCmd::Push(segment, index));
                        assert(self.pst() =~~= emit1(bump(pre.pst()), VmCmd::Push(segment, index)));
                    }
                    if self.peek_symbol('[') {
                        self.tokenizer.advance();
                        proof {
                            assert(self.pst() =~~= bump(mid.pst()));
                        }
                        match self.compile_expression() {
                            Ok(()) => {},
                            Err(e) => {
                                return Err(e);
                            },
                        }
                        match self.expect_symbol(']') {
                            Ok(()) => {},
                            Err(e) => {
                                return Err(e);
                            },
                        }
                        let ghost m2 = self.out();
                        let ghost sub = self.pst();
                        self.vm_writer.write_arithmetic(Command::ADD);
                        let ghost m3 = self.out();
                        self.vm_writer.write_pop(Segment::POINTER, 1);
                        let ghost m4 = self.out();
                        self.vm_writer.write_push(Segment::THAT, 0);
                        proof {
                            lemma_extends_trans(pre.out(), mid.out(), m2);
                            lemma_extends_push(m2, VmCmd::Arith(Command::ADD));
                            lemma_extends_trans(pre.out(), m2, m3);
                            lemma_extends_push(m3, VmCmd::Pop(Segment::POINTER, 1));
                            lemma_extends_trans(pre.out(), m3, m4);
                            lemma_extends_push(m4, VmCmd::Push(Segment::THAT, 0));
                            lemma_extends_trans(pre.out(), m4, self.out());
                            assert(self.pst() =~~= emitn(
                                sub,
                                seq![
                                    VmCmd::Arith(Command::ADD),
                                    VmCmd::Pop(Segment::POINTER, 1),
                                    VmCmd::Push(Segment::THAT, 0),
                                ],
                            ));
                        }
                        Ok(())
                    } else {
                        Ok(())
                    }
                }
            },
        }
    }

    /// Emits the code of one string constant: its length, the constructor
    /// call, then one append call per character.
    fn compile_string_const(&mut self, text: &String)
        requires
            old(self).wf(),
        ensures
            final(self).wf(),
            final(self).toks() == old(self).toks(),
            final(self).at() == old(self).at(),
            final(self).st() == old(self).st(),
            final(self).cls() == old(self).cls(),
            final(self).lc() == old(self).lc(),
            extends(old(self).out(), final(self).out()),
            appended(old(self).out(), final(self).out()) == string_const_cmds(text@),
    {
        let ghost pre = *self;
        let chars = crate::strutil::chars_of(text.as_str());
        let n: u16 = #[verifier::truncate] (chars.len() as u16);
        self.vm_writer.write_push(Segment::CONSTANT, n);
        let ghost m1 = self.out();
        self.vm_writer.write_call(String::from_str("String.new"), 1);
        proof {
            lemma_extends_push(pre.out(), VmCmd::Push(Segment::CONSTANT, n));
            lemma_extends_push(m1, VmCmd::Call("String.new"@, 1));
            lemma_extends_trans(pre.out(), m1, self.out());
            assert(append_char_cmds(text@.subrange(0, 0)) =~= Seq::<VmCmd>::empty());
            assert(appended(pre.out(), self.out()) =~= seq![
                VmCmd::Push(Segment::CONSTANT, text@.len() as u16),
                VmCmd::Call("String.new"@, 1),
            ] + append_char_cmds(text@.subrange(0, 0)));
        }
        let mut i: usize = 0;
        while i < chars.len()
            invariant
                self.wf(),
                i <= chars.len(),
                chars@ == text@,
                self.toks() == pre.toks(),
                self.at() == pre.at(),
                self.st() == pre.st(),
                self.cls() == pre.cls(),
                self.lc() == pre.lc(),
                extends(pre.out(), self.out()),
                appended(pre.out(), self.out()) == seq![
                    VmCmd::Push(Segment::CONSTANT, text@.len() as u16),
                    VmCmd::Call("String.new"@, 1),
                ] + append_char_cmds(text@.subrange(0, i as int)),
            decreases chars.len() - i,
        {
            let c = chars[i];
            let code: u16 = #[verifier::truncate] ((c as u32) as u16);
            let ghost m2 = self.out();
            self.vm_writer.write_push(Segment::CONSTANT, code);
            let ghost m3 = self.out();
            self.vm_writer.write_call(String::from_str("String.appendChar"), 2);
            i = i + 1;
            proof {
                lemma_extends_push(m2, VmCmd::Push(Segment::CONSTANT, code));
                lemma_extends_trans(pre.out(), m2, m3);
                lemma_extends_push(m3, VmCmd::Call("String.appendChar"@, 2));
                lemma_extends_trans(pre.out(), m3, self.out());
                assert(text@.subrange(0, i as int).drop_last() =~= text@.subrange(0, i - 1));
                assert(text@.subrange(0, i as int).last() == text@[i - 1]);
                assert(appended(pre.out(), self.out()) =~= seq![
                    VmCmd::Push(Segment::CONSTANT, text@.len() as u16),
                    VmCmd::Call("String.new"@, 1),
                ] + append_char_cmds(text@.subrange(0, i as int)));
            }
        }
        proof {
            assert(text@.subrange(0, text@.len() as int) =~= text@);
        }
    }

    /// Compiles a left-associative chain of terms separated by binary
    /// operators, each operator emitted after both its operands, in
    /// encounter order and without precedence levels.
    fn compile_expression(&mut self) -> (r: Result<(), CompileError>)
        requires
            old(self).wf(),
        ensures
            Self::frame(*old(self), *final(self)),
            (r matches Err(e) ==> engine_error(e)),
            final(self).st() == old(self).st(),
            final(self).lc() == old(self).lc(),
            (r matches Ok(()) ==> final(self).at() > old(self).at() && appended(
                old(self).out(),
                final(self).out(),
            ).len() >= 1),
            (r matches Ok(()) ==> sp_expression(old(self).toks(), old(self).cls(), old(self).pst())
                == Ok::<ParseState, CompileError>(final(self).pst())),
            (r matches Err(e) ==> sp_expression(old(self).toks(), old(self).cls(), old(self).pst())
                == Err::<ParseState, CompileError>(e)),
        decreases self.toks().len() - self.at(), 1int,
    {
        let ghost pre = *self;
        let ghost toks = pre.toks();
        let ghost cls = pre.cls();
        match self.compile_term() {
            Ok(()) => {},
            Err(e) => {
                return Err(e);
            },
        }
        proof {
            assert(sp_expression(toks, cls, pre.pst()) == sp_exp_ops(toks, cls, self.pst()));
        }
        loop
            invariant
                pre == *old(self),
                toks == pre.toks(),
                cls == pre.cls(),
                self.wf(),
                self.toks() == pre.toks(),
                pre.at() < self.at() <= self.toks().len(),
                self.st() == pre.st(),
                self.cls() == pre.cls(),
                self.lc() == pre.lc(),
                extends(pre.out(), self.out()),
                appended(pre.out(), self.out()).len() >= 1,
                sp_expression(toks, cls, pre.pst()) == sp_exp_ops(toks, cls, self.pst()),
            ensures
                sp_expression(toks, cls, pre.pst()) == Ok::<ParseState, CompileError>(self.pst()),
            decreases self.toks().len() - self.at(),
        {
            let ghost it = *self;
            let op = match self.peek_binop() {
                Some(c) => c,
                None => {
                    proof {
                        assert(sp_exp_ops(toks, cls, it.pst()) == Ok::<ParseState, CompileError>(
                            it.pst(),
                        ));
                    }
                    break ;
                },
            };
            self.tokenizer.advance();
            let ghost m1 = *self;
            proof {
                assert(m1.pst() =~~= bump(it.pst()));
            }
            match self.compile_term() {
                Ok(()) => {},
                Err(e) => {
                    return Err(e);
                },
            }
            let ghost m2 = self.out();
            let ghost sub = self.pst();
            match op {
                '+' => self.vm_writer.write_arithmetic(Command::ADD),
                '-' => self.vm_writer.write_arithmetic(Command::SUB),
                '*' => self.vm_writer.write_call(String::from_str("Math.multiply"), 2),
                '/' => self.vm_writer.write_call(String::from_str("Math.divide"), 2),
                '&' => self.vm_writer.write_arithmetic(Command::AND),
                '|' => self.vm_writer.write_arithmetic(Command::OR),
                '<' => self.vm_writer.write_arithmetic(Command::LT),
                '>' => self.vm_writer.write_arithmetic(Command::GT),
                _ => self.vm_writer.write_arithmetic(Command::EQ),
            }
            proof {
                lemma_extends_trans(pre.out(), m1.out(), m2);
                assert(self.out().len() == m2.len() + 1);
                assert(extends(m2, self.out()));
                lemma_extends_trans(pre.out(), m2, self.out());
                assert(self.pst() =~~= emit1(sub, op_cmd(op)));
                assert(sp_exp_ops(toks, cls, it.pst()) == sp_exp_ops(toks, cls, self.pst()));
            }
        }
        Ok(())
    }

    /// Compiles a comma-separated expression list and counts its items; the
    /// list is empty exactly when it starts at its closing parenthesis.
    fn compile_expression_list(&mut self) -> (r: Result<u16, CompileError>)
        requires
            old(self).wf(),
        ensures
            Self::frame(*old(self), *final(self)),
            (r matches Err(e) ==> engine_error(e)),
            final(self).st() == old(self).st(),
            final(self).lc() == old(self).lc(),
            (r matches Ok(n) ==> {
                let empty = old(self).at() < old(self).toks().len() && old(self).cur()
                    == Tok::Symbol(')');
                &&& (empty ==> n == 0 && *final(self) == *old(self))
                &&& (!empty ==> n >= 1 && final(self).at() > old(self).at())
            }),
            (r matches Ok(n) ==> sp_expression_list(
                old(self).toks(),
                old(self).cls(),
                old(self).pst(),
            ) == Ok::<(ParseState, u16), CompileError>((final(self).pst(), n))),
            (r matches Err(e) ==> sp_expression_list(
                old(self).toks(),
                old(self).cls(),
                old(self).pst(),
            ) == Err::<(ParseState, u16), CompileError>(e)),
        decreases self.toks().len() - self.at(), 2int,
    {
        let ghost pre = *self;
        let ghost toks = pre.toks();
        let ghost cls = pre.cls();
        let mut count: u16 = 0;
        if self.peek_symbol(')') {
            return Ok(count);
        }
        match self.compile_expression() {
            Ok(()) => {},
            Err(e) => {
                return Err(e);
            },
        }
        count = 1;
        proof {
            assert(sp_expression_list(toks, cls, pre.pst()) == sp_exprs_more(
                toks,
                cls,
                self.pst(),
                1,
            ));
        }
        loop
            invariant
                pre == *old(self),
                toks == pre.toks(),
                cls == pre.cls(),
                count >= 1,
                self.wf(),
                self.toks() == pre.toks(),
                pre.at() < self.at() <= self.toks().len(),
                self.st() == pre.st(),
                self.cls() == pre.cls(),
                self.lc() == pre.lc(),
                extends(pre.out(), self.out()),
                sp_expression_list(toks, cls, pre.pst()) == sp_exprs_more(
                    toks,
                    cls,
                    self.pst(),
                    count,
                ),
            ensures
                sp_expression_list(toks, cls, pre.pst()) == Ok::<(ParseState, u16), CompileError>(
                    (self.pst(), count),
                ),
            decreases self.toks().len() - self.at(),
        {
            let ghost it = *self;
            if !self.peek_symbol(',') {
                proof {
                    assert(sp_exprs_more(toks, cls, it.pst(), count) == Ok::<
                        (ParseState, u16),
                        CompileError,
                    >((it.pst(), count)));
                }
                break ;
            }
            self.tokenizer.advance();
            let ghost m1 = *self;
            proof {
                assert(m1.pst() =~~= bump(it.pst()));
            }
            match self.compile_expression() {
                Ok(()) => {},
                Err(e) => {
                    return Err(e);
                },
            }
            proof {
                lemma_extends_trans(pre.out(), m1.out(), self.out());
            }
            if count == u16::MAX {
                return Err(CompileError::TooManyArguments);
            }
            count = count + 1;
            proof {
                assert(sp_exprs_more(toks, cls, it.pst(), (count - 1) as u16) == sp_exprs_more(
                    toks,
                    cls,
                    self.pst(),
                    count,
                ));
            }
        }
        Ok(count)
    }

    /// Compiles a subroutine call after its leading identifier has been
    /// consumed: a dotted call goes to the named class, or to the class of an
    /// instance variable with the variable pushed as receiver; an undotted
    /// call goes to the current class with the current object as receiver.
    fn compile_subroutine_call(&mut self, so_far: String) -> (r: Result<(), CompileError>)
        requires
            old(self).wf(),
        ensures
            Self::frame(*old(self), *final(self)),
            (r matches Err(e) ==> engine_error(e)),
            final(self).st() == old(self).st(),
            final(self).lc() == old(self).lc(),
            (r matches Ok(()) ==> {
                let app = appended(old(self).out(), final(self).out());
                &&& final(self).at() > old(self).at()
                &&& app.len() >= 1
                &&& app.last() matches VmCmd::Call(_, _)
                &&& (old(self).at() < old(self).toks().len() && old(self).cur() == Tok::Symbol('(')
                    ==> app[0] == VmCmd::Push(Segment::POINTER, 0) && (app.last() matches
                VmCmd::Call(nm, n) ==> nm == old(self).cls() + "."@ + so_far@ && n >= 1))
                &&& (old(self).at() < old(self).toks().len() && old(self).cur() == Tok::Symbol('.')
                    && old(self).at() + 1 < old(self).toks().len() ==> (old(self).toks()[old(
                    self,
                ).at() + 1] matches Tok::Identifier(m) ==> {
                    &&& (old(self).st().resolve(so_far@) matches Some(e) ==> app[0] == VmCmd::Push(
                        seg_of(e.kind),
                        e.index,
                    ) && (app.last() matches VmCmd::Call(nm, n) ==> nm == e.typ + "."@ + m && n
                        >= 1))
                    &&& (old(self).st().resolve(so_far@) is None ==> (app.last() matches
                    VmCmd::Call(nm, _) ==> nm == so_far@ + "."@ + m))
                }))
            }),
            (r matches Ok(()) ==> sp_call(
                old(self).toks(),
                old(self).cls(),
                old(self).pst(),
                so_far@,
            ) == Ok::<ParseState, CompileError>(final(self).pst())),
            (r matches Err(e) ==> sp_call(
                old(self).toks(),
                old(self).cls(),
                old(self).pst(),
                so_far@,
            ) == Err::<ParseState, CompileError>(e)),
        decreases self.toks().len() - self.at(), 0int,
    {
        let ghost pre = *self;
        let ghost toks = pre.toks();
        let ghost cls = pre.cls();
        let ghost sofar = so_far@;
        let mut name: String;
        let mut num_args: u16 = 0;
        if self.peek_symbol('.') {
            self.tokenizer.advance();
            proof {
                assert(self.pst() =~~= bump(pre.pst()));
            }
            // the call target is an instance's class or a named class
            match self.symbol_table.type_of(so_far.clone()) {
                Some(var_type) => {
                    let kind = match self.symbol_table.kind_of(so_far.clone()) {
                        Some(k) => k,
                        None => {
                            return Err(CompileError::UnresolvedIdentifier);
                        },
                    };
                    let index = match self.symbol_table.index_of(so_far.clone()) {
                        Some(i) => i,
                        None => {
                            return Err(CompileError::UnresolvedIdentifier);
                        },
                    };
                    let method = match self.read_identifier() {
                        Ok(m) => m,
                        Err(e) => {
                            return Err(e);
                        },
                    };
                    let mut full = var_type;
                    full.append(".");
                    full.append(method.as_str());
                    name = full;
                    self.vm_writer.write_push(seg_of_x(kind), index);
                    num_args = 1;
                    proof {
                        let en = pre.st().resolve(sofar)->Some_0;
                        assert(name@ == en.typ + "."@ + method@);
                        assert(self.pst() =~~= emit1(
                            ParseState { at: pre.at() + 2, ..pre.pst() },
                            VmCmd::Push(seg_of(en.kind), en.index),
                        ));
                    }
                },
                None => {
                    let method = match self.read_identifier() {
                        Ok(m) => m,
                        Err(e) => {
                            return Err(e);
                        },
                    };
                    let mut full = so_far;
                    full.append(".");
                    full.append(method.as_str());
                    name = full;
                    proof {
                        assert(name@ == sofar + "."@ + method@);
                        assert(self.pst() =~~= ParseState { at: pre.at() + 2, ..pre.pst() });
                    }
                },
            }
        } else {
            let mut full = self.class_name.clone();
            full.append(".");
            full.append(so_far.as_str());
            name = full;
            self.vm_writer.write_push(Segment::POINTER, 0);
            num_args = 1;
            proof {
                assert(name@ == cls + "."@ + sofar);
                assert(self.pst() =~~= emit1(pre.pst(), VmCmd::Push(Segment::POINTER, 0)));
            }
        }
        let ghost m1 = *self;
        proof {
            assert(sp_call(toks, cls, pre.pst(), sofar) == sp_call_args(
                toks,
                cls,
                m1.pst(),
                name@,
                num_args,
            ));
        }
        match self.expect_symbol('(') {
            Ok(()) => {},
            Err(e) => {
                return Err(e);
            },
        }
        let ghost m2 = *self;
        let exprs = match self.compile_expression_list() {
            Ok(n) => n,
            Err(e) => {
                return Err(e);
            },
        };
        match self.expect_symbol(')') {
            Ok(()) => {},
            Err(e) => {
                return Err(e);
            },
        }
        if num_args as u32 + exprs as u32 > u16::MAX as u32 {
            return Err(CompileError::TooManyArguments);
        }
        let total = num_args + exprs;
        let ghost m3 = *self;
        let ghost nm = name@;
        self.vm_writer.write_call(name, total);
        proof {
            assert(extends(pre.out(), m1.out()));
            lemma_extends_trans(pre.out(), m1.out(), m3.out());
            lemma_extends_push(m3.out(), VmCmd::Call(nm, total));
            lemma_extends_trans(pre.out(), m3.out(), self.out());
            assert(appended(pre.out(), self.out()).last() == VmCmd::Call(nm, total));
            assert(appended(pre.out(), m1.out()).len() >= 1 ==> appended(pre.out(), self.out())[0]
                == appended(pre.out(), m1.out())[0]);
            assert(self.pst() =~~= emit1(m3.pst(), VmCmd::Call(nm, total)));
        }
        Ok(())
    }
}

proof fn lemma_extends_index(a: Seq<VmCmd>, b: Seq<VmCmd>, i: int)
    requires
        extends(a, b),
        0 <= i < a.len(),
    ensures
        b[i] == a[i],
{
    assert(b.subrange(0, a.len() as int)[i] == b[i]);
}

impl CompilationEngine {
    /// Compiles a `do` statement: the call is compiled as a term would be,
    /// then its result is discarded into the scratch cell.
    fn compile_do(&mut self) -> (r: Result<(), CompileError>)
        requires
            old(self).wf(),
            old(self).at() < old(self).toks().len(),
            old(self).cur() == Tok::Keyword(KeyWord::DO),
        ensures
            Self::frame(*old(self), *final(self)),
            (r matches Err(e) ==> engine_error(e)),
            final(self).st() == old(self).st(),
            final(self).lc() == old(self).lc(),
            (r matches Ok(()) ==> {
                let app = appended(old(self).out(), final(self).out());
                &&& final(self).at() > old(self).at()
                &&& app.len() >= 2
                &&& app.last() == VmCmd::Pop(Segment::TEMP, 0)
                &&& app[app.len() - 2] matches VmCmd::Call(_, _)
            }),
            (r matches Ok(()) ==> sp_do(old(self).toks(), old(self).cls(), old(self).pst())
                == Ok::<ParseState, CompileError>(final(self).pst())),
            (r matches Err(e) ==> sp_do(old(self).toks(), old(self).cls(), old(self).pst())
                == Err::<ParseState, CompileError>(e)),
    {
        let ghost pre = *self;
        self.tokenizer.advance();
        proof {
            assert(self.pst() =~~= bump(pre.pst()));
        }
        let name = match self.read_identifier() {
            Ok(n) => n,
            Err(e) => {
                return Err(e);
            },
        };
        let ghost m1 = *self;
        match self.compile_subroutine_call(name) {
            Ok(()) => {},
            Err(e) => {
                return Err(e);
            },
        }
        match self.expect_symbol(';') {
            Ok(()) => {},
            Err(e) => {
                return Err(e);
            },
        }
        let ghost m2 = *self;
        self.vm_writer.write_pop(Segment::TEMP, 0);
        proof {
            lemma_extends_push(m2.out(), VmCmd::Pop(Segment::TEMP, 0));
            lemma_extends_trans(pre.out(), m2.out(), self.out());
            assert(pre.out() == m1.out());
            assert(appended(pre.out(), self.out()).last() == VmCmd::Pop(Segment::TEMP, 0));
            assert(appended(pre.out(), self.out())[appended(pre.out(), self.out()).len() - 2]
                == appended(pre.out(), m2.out()).last());
            assert(self.pst() =~~= emit1(m2.pst(), VmCmd::Pop(Segment::TEMP, 0)));
        }
        Ok(())
    }

    /// Compiles a `let` statement: without an index the right-hand value is
    /// popped straight into the variable's segment; with an index the cell
    /// pointer is computed first and the value is popped through it.
    #[verifier::rlimit(80)]
    fn compile_let(&mut self) -> (r: Result<(), CompileError>)
        requires
            old(self).wf(),
            old(self).at() < old(self).toks().len(),
            old(self).cur() == Tok::Keyword(KeyWord::LET),
        ensures
            Self::frame(*old(self), *final(self)),
            (r matches Err(e) ==> engine_error(e)),
            final(self).st() == old(self).st(),
            final(self).lc() == old(self).lc(),
            (r matches Ok(()) ==> {
                let app = appended(old(self).out(), final(self).out());
                let arrayed = old(self).at() + 2 < old(self).toks().len() && old(self).toks()[old(
                    self,
                ).at() + 2] == Tok::Symbol('[');
                &&& final(self).at() > old(self).at()
                &&& old(self).at() + 1 < old(self).toks().len()
                &&& (old(self).toks()[old(self).at() + 1] matches Tok::Identifier(nm) && old(
                    self,
                ).st().resolve(nm) matches Some(e) && {
                    &&& (arrayed ==> app[0] == VmCmd::Push(seg_of(e.kind), e.index)
                        && app.last() == VmCmd::Pop(Segment::THAT, 0) && exists|k: int|
                        1 <= k && k + 2 < app.len() && #[trigger] app[k] == VmCmd::Arith(
                            Command::ADD,
                        ) && app[k + 1] == VmCmd::Pop(Segment::POINTER, 1))
                    &&& (!arrayed ==> app.len() >= 2 && app.last() == VmCmd::Pop(
                        seg_of(e.kind),
                        e.index,
                    ))
                })
            }),
            (r matches Ok(()) ==> sp_let(old(self).toks(), old(self).cls(), old(self).pst())
                == Ok::<ParseState, CompileError>(final(self).pst())),
            (r matches Err(e) ==> sp_let(old(self).toks(), old(self).cls(), old(self).pst())
                == Err::<ParseState, CompileError>(e)),
    {
        let ghost pre = *self;
        self.tokenizer.advance();
        proof {
            assert(self.pst() =~~= bump(pre.pst()));
        }
        let var_name = match self.read_identifier() {
            Ok(n) => n,
            Err(e) => {
                return Err(e);
            },
        };
        let kind = match self.symbol_table.kind_of(var_name.clone()) {
            Some(k) => k,
            None => {
                return Err(CompileError::UnresolvedIdentifier);
            },
        };
        let index = match self.symbol_table.index_of(var_name) {
            Some(i) => i,
            None => {
                return Err(CompileError::UnresolvedIdentifier);
            },
        };
        let mut segment = seg_of_x(kind);
        let mut target: u16 = index;
        let ghost arrayed = self.at() < self.toks().len() && self.cur() == Tok::Symbol('[');
        let ghost s2 = self.pst();
        if self.peek_symbol('[') {
            self.vm_writer.write_push(segment, target);
            let ghost m1 = *self;
            self.tokenizer.advance();
            proof {
                assert(self.pst() =~~= bump(emit1(s2, VmCmd::Push(seg_of(kind), index))));
            }
            match self.compile_expression() {
                Ok(()) => {},
                Err(e) => {
                    return Err(e);
                },
            }
            match self.expect_symbol(']') {
                Ok(()) => {},
                Err(e) => {
                    return Err(e);
                },
            }
            let ghost m2 = *self;
            self.vm_writer.write_arithmetic(Command::ADD);
            let ghost m3 = *self;
            self.vm_writer.write_pop(Segment::POINTER, 1);
            let ghost m4 = *self;
            proof {
                lemma_extends_push(pre.out(), VmCmd::Push(seg_of(kind), index));
                lemma_extends_trans(pre.out(), m1.out(), m2.out());
                lemma_extends_push(m2.out(), VmCmd::Arith(Command::ADD));
                lemma_extends_trans(pre.out(), m2.out(), m3.out());
                lemma_extends_push(m3.out(), VmCmd::Pop(Segment::POINTER, 1));
                lemma_extends_trans(pre.out(), m3.out(), m4.out());
                assert(m4.pst() =~~= emitn(
                    m2.pst(),
                    seq![VmCmd::Arith(Command::ADD), VmCmd::Pop(Segment::POINTER, 1)],
                ));
            }
            segment = Segment::THAT;
            target = 0;
            match self.expect_symbol('=') {
                Ok(()) => {},
                Err(e) => {
                    return Err(e);
                },
            }
            let ghost m5 = *self;
            match self.compile_expression() {
                Ok(()) => {},
                Err(e) => {
                    return Err(e);
                },
            }
            let ghost m6 = *self;
            self.vm_writer.write_pop(segment, target);
            proof {
                assert(self.pst() =~~= emit1(m6.pst(), VmCmd::Pop(Segment::THAT, 0)));
            }
            match self.expect_symbol(';') {
                Ok(()) => {},
                Err(e) => {
                    return Err(e);
                },
            }
            proof {
                lemma_extends_trans(pre.out(), m4.out(), m6.out());
                lemma_extends_push(m6.out(), VmCmd::Pop(Segment::THAT, 0));
                lemma_extends_trans(pre.out(), m6.out(), self.out());
                let app = appended(pre.out(), self.out());
                let n0 = pre.out().len() as int;
                let k = m2.out().len() - n0;
                lemma_extends_index(m3.out(), self.out(), m2.out().len() as int);
                lemma_extends_index(m4.out(), self.out(), m3.out().len() as int);
                lemma_extends_index(m1.out(), self.out(), n0);
                assert(app[k] == VmCmd::Arith(Command::ADD));
                assert(app[k + 1] == VmCmd::Pop(Segment::POINTER, 1));
                assert(app[0] == VmCmd::Push(seg_of(kind), index));
                assert(app.last() == VmCmd::Pop(Segment::THAT, 0));
            }
            Ok(())
        } else {
            match self.expect_symbol('=') {
                Ok(()) => {},
                Err(e) => {
                    return Err(e);
                },
            }
            let ghost m5 = *self;
            match self.compile_expression() {
                Ok(()) => {},
                Err(e) => {
                    return Err(e);
                },
            }
            let ghost m6 = *self;
            self.vm_writer.write_pop(segment, target);
            proof {
                assert(self.pst() =~~= emit1(m6.pst(), VmCmd::Pop(seg_of(kind), index)));
            }
            match self.expect_symbol(';') {
                Ok(()) => {},
                Err(e) => {
                    return Err(e);
                },
            }
            proof {
                lemma_extends_push(m6.out(), VmCmd::Pop(seg_of(kind), index));
                lemma_extends_trans(pre.out(), m6.out(), self.out());
                assert(appended(pre.out(), self.out()).last() == VmCmd::Pop(seg_of(kind), index));
            }
            Ok(())
        }
    }

    /// Compiles a `return` statement: a void return pushes the literal zero
    /// so that every subroutine leaves exactly one value for its caller.
    fn compile_return(&mut self) -> (r: Result<(), CompileError>)
        requires
            old(self).wf(),
            old(self).at() < old(self).toks().len(),
            old(self).cur() == Tok::Keyword(KeyWord::RETURN),
        ensures
            Self::frame(*old(self), *final(self)),
            (r matches Err(e) ==> engine_error(e)),
            final(self).st() == old(self).st(),
            final(self).lc() == old(self).lc(),
            (r matches Ok(()) ==> {
                let app = appended(old(self).out(), final(self).out());
                let void = old(self).at() + 1 < old(self).toks().len() && old(self).toks()[old(
                    self,
                ).at() + 1] == Tok::Symbol(';');
                &&& final(self).at() > old(self).at()
                &&& (void ==> app == seq![
                    VmCmd::Push(Segment::CONSTANT, 0u16),
                    VmCmd::Return,
                ] && final(self).at() == old(self).at() + 2)
                &&& (!void ==> app.len() >= 2 && app.last() == VmCmd::Return)
            }),
            (r matches Ok(()) ==> sp_return(old(self).toks(), old(self).cls(), old(self).pst())
                == Ok::<ParseState, CompileError>(final(self).pst())),
            (r matches Err(e) ==> sp_return(old(self).toks(), old(self).cls(), old(self).pst())
                == Err::<ParseState, CompileError>(e)),
    {
        let ghost pre = *self;
        self.tokenizer.advance();
        proof {
            assert(self.pst() =~~= bump(pre.pst()));
        }
        if self.peek_symbol(';') {
            self.vm_writer.write_push(Segment::CONSTANT, 0);
            let ghost m1 = *self;
            self.vm_writer.write_return();
            proof {
                assert(self.pst() =~~= emitn(
                    bump(pre.pst()),
                    seq![VmCmd::Push(Segment::CONSTANT, 0u16), VmCmd::Return],
                ));
            }
            match self.expect_symbol(';') {
                Ok(()) => {},
                Err(e) => {
                    return Err(e);
                },
            }
            proof {
                lemma_extends_push(pre.out(), VmCmd::Push(Segment::CONSTANT, 0u16));
                lemma_extends_push(m1.out(), VmCmd::Return);
                lemma_extends_trans(pre.out(), m1.out(), self.out());
                assert(appended(pre.out(), self.out()) =~= seq![
                    VmCmd::Push(Segment::CONSTANT, 0u16),
                    VmCmd::Return,
                ]);
            }
            Ok(())
        } else {
            match self.compile_expression() {
                Ok(()) => {},
                Err(e) => {
                    return Err(e);
                },
            }
            let ghost m1 = *self;
            self.vm_writer.write_return();
            proof {
                assert(self.pst() =~~= emit1(m1.pst(), VmCmd::Return));
            }
            match self.expect_symbol(';') {
                Ok(()) => {},
                Err(e) => {
                    return Err(e);
                },
            }
            proof {
                lemma_extends_push(m1.out(), VmCmd::Return);
                lemma_extends_trans(pre.out(), m1.out(), self.out());
                assert(appended(pre.out(), self.out()).last() == VmCmd::Return);
            }
            Ok(())
        }
    }

    /// Compiles a `while` statement: a top label, the negated condition, a
    /// conditional jump to the continue label, the body, an unconditional
    /// jump back to the top, and the continue label; each loop draws one
    /// fresh integer from the per-subroutine counter for its label pair.
    #[verifier::rlimit(60)]
    fn compile_while(&mut self) -> (r: Result<(), CompileError>)
        requires
            old(self).wf(),
            old(self).at() < old(self).toks().len(),
            old(self).cur() == Tok::Keyword(KeyWord::WHILE),
        ensures
            Self::frame(*old(self), *final(self)),
            (r matches Err(e) ==> engine_error(e)),
            final(self).st() == old(self).st(),
            final(self).lc() >= old(self).lc(),
            (r matches Ok(()) ==> {
                let app = appended(old(self).out(), final(self).out());
                let c = old(self).lc();
                &&& final(self).at() > old(self).at()
                &&& old(self).lc() < u16::MAX
                &&& final(self).lc() >= old(self).lc() + 1
                &&& app.len() >= 5
                &&& app[0] == VmCmd::Label(while_top(c))
                &&& app[app.len() - 2] == VmCmd::Goto(while_top(c))
                &&& app.last() == VmCmd::Label(while_cont(c))
                &&& exists|k: int|
                    2 <= k && k + 3 < app.len() && #[trigger] app[k] == VmCmd::Arith(Command::NOT)
                        && app[k + 1] == VmCmd::IfGoto(while_cont(c))
            }),
            (r matches Ok(()) ==> sp_while(old(self).toks(), old(self).cls(), old(self).pst())
                == Ok::<ParseState, CompileError>(final(self).pst())),
            (r matches Err(e) ==> sp_while(old(self).toks(), old(self).cls(), old(self).pst())
                == Err::<ParseState, CompileError>(e)),
        decreases self.toks().len() - self.at(), 0int,
    {
        let ghost pre = *self;
        self.tokenizer.advance();
        if self.loop_counter == u16::MAX {
            return Err(CompileError::TooManyLoops);
        }
        let counter = self.loop_counter;
        self.loop_counter = counter + 1;
        self.vm_writer.write_label(make_label("WHILE_LOOP", counter));
        let ghost m1 = *self;
        proof {
            assert(m1.pst() =~~= ParseState {
                at: pre.at() + 1,
                lc: (counter + 1) as u16,
                out: pre.out().push(VmCmd::Label(while_top(counter))),
                sym: model_of(pre.st()),
            });
        }
        match self.expect_symbol('(') {
            Ok(()) => {},
            Err(e) => {
                return Err(e);
            },
        }
        match self.compile_expression() {
            Ok(()) => {},
            Err(e) => {
                return Err(e);
            },
        }
        let ghost m2 = *self;
        self.vm_writer.write_arithmetic(Command::NOT);
        let ghost m3 = *self;
        self.vm_writer.write_if(make_label("WHILE_CONTINUE", counter));
        let ghost m4 = *self;
        proof {
            lemma_extends_push(pre.out(), VmCmd::Label(while_top(counter)));
            lemma_extends_trans(pre.out(), m1.out(), m2.out());
            lemma_extends_push(m2.out(), VmCmd::Arith(Command::NOT));
            lemma_extends_trans(pre.out(), m2.out(), m3.out());
            lemma_extends_push(m3.out(), VmCmd::IfGoto(while_cont(counter)));
            lemma_extends_trans(pre.out(), m3.out(), m4.out());
            assert(m4.pst() =~~= emitn(
                m2.pst(),
                seq![VmCmd::Arith(Command::NOT), VmCmd::IfGoto(while_cont(counter))],
            ));
        }
        match self.expect_symbol(')') {
            Ok(()) => {},
            Err(e) => {
                return Err(e);
            },
        }
        match self.expect_symbol('{') {
            Ok(()) => {},
            Err(e) => {
                return Err(e);
            },
        }
        match self.compile_statements() {
            Ok(()) => {},
            Err(e) => {
                return Err(e);
            },
        }
        let ghost m5 = *self;
        self.vm_writer.write_goto(make_label("WHILE_LOOP", counter));
        let ghost m6 = *self;
        proof {
            assert(m6.pst() =~~= emit1(m5.pst(), VmCmd::Goto(while_top(counter))));
        }
        match self.expect_symbol('}') {
            Ok(()) => {},
            Err(e) => {
                return Err(e);
            },
        }
        self.vm_writer.write_label(make_label("WHILE_CONTINUE", counter));
        proof {
            assert(self.pst() =~~= emit1(
                ParseState { at: self.at(), out: m6.out(), sym: model_of(self.st()), lc: self.lc() },
                VmCmd::Label(while_cont(counter)),
            ));
            lemma_extends_trans(pre.out(), m4.out(), m5.out());
            lemma_extends_push(m5.out(), VmCmd::Goto(while_top(counter)));
            lemma_extends_trans(pre.out(), m5.out(), m6.out());
            lemma_extends_push(m6.out(), VmCmd::Label(while_cont(counter)));
            lemma_extends_trans(pre.out(), m6.out(), self.out());
            let app = appended(pre.out(), self.out());
            let n0 = pre.out().len() as int;
            let k = m2.out().len() - n0;
            lemma_extends_index(m1.out(), self.out(), n0);
            lemma_extends_index(m3.out(), self.out(), m2.out().len() as int);
            lemma_extends_index(m4.out(), self.out(), m3.out().len() as int);
            lemma_extends_index(m6.out(), self.out(), m5.out().len() as int);
            assert(app[0] == VmCmd::Label(while_top(counter)));
            assert(app[k] == VmCmd::Arith(Command::NOT));
            assert(app[k + 1] == VmCmd::IfGoto(while_cont(counter)));
            assert(app[app.len() - 2] == VmCmd::Goto(while_top(counter)));
            assert(app.last() == VmCmd::Label(while_cont(counter)));
        }
        Ok(())
    }

    /// Compiles an `if` statement: the negated condition jumps to the else
    /// label; the then-branch falls through and jumps to the continue label;
    /// the optional else-branch sits between the two labels.
    #[verifier::rlimit(60)]
    fn compile_if(&mut self) -> (r: Result<(), CompileError>)
        requires
            old(self).wf(),
            old(self).at() < old(self).toks().len(),
            old(self).cur() == Tok::Keyword(KeyWord::IF),
        ensures
            Self::frame(*old(self), *final(self)),
            (r matches Err(e) ==> engine_error(e)),
            final(self).st() == old(self).st(),
            final(self).lc() >= old(self).lc(),
            (r matches Ok(()) ==> {
                let app = appended(old(self).out(), final(self).out());
                let c = old(self).lc();
                &&& final(self).at() > old(self).at()
                &&& old(self).lc() < u16::MAX
                &&& final(self).lc() >= old(self).lc() + 1
                &&& app.len() >= 5
                &&& app.last() == VmCmd::Label(if_cont_label(c))
                &&& exists|k: int, m: int|
                    1 <= k && k + 2 <= m && m + 3 <= app.len() && #[trigger] app[k]
                        == VmCmd::Arith(Command::NOT) && app[k + 1] == VmCmd::IfGoto(
                        if_else_label(c),
                    ) && #[trigger] app[m] == VmCmd::Goto(if_cont_label(c)) && app[m + 1]
                        == VmCmd::Label(if_else_label(c))
            }),
            (r matches Ok(()) ==> sp_if(old(self).toks(), old(self).cls(), old(self).pst())
                == Ok::<ParseState, CompileError>(final(self).pst())),
            (r matches Err(e) ==> sp_if(old(self).toks(), old(self).cls(), old(self).pst())
                == Err::<ParseState, CompileError>(e)),
        decreases self.toks().len() - self.at(), 0int,
    {
        let ghost pre = *self;
        self.tokenizer.advance();
        if self.loop_counter == u16::MAX {
            return Err(CompileError::TooManyLoops);
        }
        let counter = self.loop_counter;
        self.loop_counter = counter + 1;
        proof {
            assert(self.pst() =~~= ParseState {
                at: pre.at() + 1,
                lc: (counter + 1) as u16,
                out: pre.out(),
                sym: model_of(pre.st()),
            });
        }
        match self.expect_symbol('(') {
            Ok(()) => {},
            Err(e) => {
                return Err(e);
            },
        }
        match self.compile_expression() {
            Ok(()) => {},
            Err(e) => {
                return Err(e);
            },
        }
        let ghost m2 = *self;
        self.vm_writer.write_arithmetic(Command::NOT);
        let ghost m3 = *self;
        self.vm_writer.write_if(make_label("IF_ELSE", counter));
        let ghost m4 = *self;
        proof {
            lemma_extends_push(m2.out(), VmCmd::Arith(Command::NOT));
            lemma_extends_trans(pre.out(), m2.out(), m3.out());
            lemma_extends_push(m3.out(), VmCmd::IfGoto(if_else_label(counter)));
            lemma_extends_trans(pre.out(), m3.out(), m4.out());
            assert(m4.pst() =~~= emitn(
                m2.pst(),
                seq![VmCmd::Arith(Command::NOT), VmCmd::IfGoto(if_else_label(counter))],
            ));
        }
        match self.expect_symbol(')') {
            Ok(()) => {},
            Err(e) => {
                return Err(e);
            },
        }
        match self.expect_symbol('{') {
            Ok(()) => {},
            Err(e) => {
                return Err(e);
            },
        }
        match self.compile_statements() {
            Ok(()) => {},
            Err(e) => {
                return Err(e);
            },
        }
        match self.expect_symbol('}') {
            Ok(()) => {},
            Err(e) => {
                return Err(e);
            },
        }
        let ghost m5 = *self;
        self.vm_writer.write_goto(make_label("IF_CONTINUE", counter));
        let ghost m6 = *self;
        self.vm_writer.write_label(make_label("IF_ELSE", counter));
        let ghost m7 = *self;
        proof {
            lemma_extends_trans(pre.out(), m4.out(), m5.out());
            lemma_extends_push(m5.out(), VmCmd::Goto(if_cont_label(counter)));
            lemma_extends_trans(pre.out(), m5.out(), m6.out());
            lemma_extends_push(m6.out(), VmCmd::Label(if_else_label(counter)));
            lemma_extends_trans(pre.out(), m6.out(), m7.out());
            assert(m7.pst() =~~= emitn(
                m5.pst(),
                seq![VmCmd::Goto(if_cont_label(counter)), VmCmd::Label(if_else_label(counter))],
            ));
            assert(sp_if(pre.toks(), pre.cls(), pre.pst()) == sp_if_else(
                pre.toks(),
                pre.cls(),
                pre.pst(),
                m7.pst(),
                counter,
            ));
        }
        if self.peek_keyword(KeyWord::ELSE) {
            self.tokenizer.advance();
            proof {
                assert(self.pst() =~~= bump(m7.pst()));
            }
            match self.expect_symbol('{') {
                Ok(()) => {},
                Err(e) => {
                    return Err(e);
                },
            }
            match self.compile_statements() {
                Ok(()) => {},
                Err(e) => {
                    return Err(e);
                },
            }
            match self.expect_symbol('}') {
                Ok(()) => {},
                Err(e) => {
                    return Err(e);
                },
            }
        }
        let ghost m8 = *self;
        self.vm_writer.write_label(make_label("IF_CONTINUE", counter));
        proof {
            assert(self.pst() =~~= emit1(m8.pst(), VmCmd::Label(if_cont_label(counter))));
            lemma_extends_trans(pre.out(), m7.out(), m8.out());
            lemma_extends_push(m8.out(), VmCmd::Label(if_cont_label(counter)));
            lemma_extends_trans(pre.out(), m8.out(), self.out());
            let app = appended(pre.out(), self.out());
            let n0 = pre.out().len() as int;
            let k = m2.out().len() - n0;
            let m = m5.out().len() - n0;
            lemma_extends_index(m3.out(), self.out(), m2.out().len() as int);
            lemma_extends_index(m4.out(), self.out(), m3.out().len() as int);
            lemma_extends_index(m6.out(), self.out(), m5.out().len() as int);
            lemma_extends_index(m7.out(), self.out(), m6.out().len() as int);
            assert(app[k] == VmCmd::Arith(Command::NOT));
            assert(app[k + 1] == VmCmd::IfGoto(if_else_label(counter)));
            assert(app[m] == VmCmd::Goto(if_cont_label(counter)));
            assert(app[m + 1] == VmCmd::Label(if_else_label(counter)));
            assert(app.last() == VmCmd::Label(if_cont_label(counter)));
        }
        Ok(())
    }

    /// Compiles a run of statements, stopping at the first token that is not
    /// a statement keyword.
    fn compile_statements(&mut self) -> (r: Result<(), CompileError>)
        requires
            old(self).wf(),
        ensures
            Self::frame(*old(self), *final(self)),
            (r matches Err(e) ==> engine_error(e)),
            final(self).st() == old(self).st(),
            final(self).lc() >= old(self).lc(),
            (r matches Ok(()) ==> sp_statements(old(self).toks(), old(self).cls(), old(self).pst())
                == Ok::<ParseState, CompileError>(final(self).pst())),
            (r matches Err(e) ==> sp_statements(old(self).toks(), old(self).cls(), old(self).pst())
                == Err::<ParseState, CompileError>(e)),
        decreases self.toks().len() - self.at(), 1int,
    {
        let ghost pre = *self;
        let ghost toks = pre.toks();
        let ghost cls = pre.cls();
        loop
            invariant
                pre == *old(self),
                toks == pre.toks(),
                cls == pre.cls(),
                self.wf(),
                self.toks() == pre.toks(),
                pre.at() <= self.at() <= self.toks().len(),
                self.st() == pre.st(),
                self.cls() == pre.cls(),
                self.lc() >= pre.lc(),
                extends(pre.out(), self.out()),
                sp_statements(toks, cls, pre.pst()) == sp_statements(toks, cls, self.pst()),
            ensures
                sp_statements(toks, cls, pre.pst()) == Ok::<ParseState, CompileError>(self.pst()),
            decreases self.toks().len() - self.at(),
        {
            let ghost it = *self;
            if !self.tokenizer.has_current() {
                proof {
                    assert(sp_statements(toks, cls, it.pst()) == Ok::<ParseState, CompileError>(
                        it.pst(),
                    ));
                }
                break ;
            }
            if !matches!(self.tokenizer.token_type(), TokenType::KEYWORD) {
                proof {
                    assert(sp_statements(toks, cls, it.pst()) == Ok::<ParseState, CompileError>(
                        it.pst(),
                    ));
                }
                break ;
            }
            let k = self.tokenizer.key_word();
            let ghost m = *self;
            let step = match k {
                KeyWord::LET => self.compile_let(),
                KeyWord::IF => self.compile_if(),
                KeyWord::WHILE => self.compile_while(),
                KeyWord::DO => self.compile_do(),
                KeyWord::RETURN => self.compile_return(),
                _ => {
                    proof {
                        assert(sp_statements(toks, cls, it.pst()) == Err::<
                            ParseState,
                            CompileError,
                        >(CompileError::UnexpectedToken));
                    }
                    return Err(CompileError::UnexpectedToken);
                },
            };
            proof {
                lemma_extends_trans(pre.out(), m.out(), self.out());
            }
            match step {
                Ok(()) => {},
                Err(e) => {
                    return Err(e);
                },
            }
            proof {
                assert(sp_statements(toks, cls, it.pst()) == sp_statements(toks, cls, self.pst()));
            }
        }
        Ok(())
    }

    /// Compiles one class-level variable declaration: `static` or `field`, a
    /// type, and one or more names that go into the class scope. Nothing is
    /// emitted.
    #[verifier::loop_isolation(false)]
    fn compile_class_var_dec(&mut self) -> (r: Result<(), CompileError>)
        requires
            old(self).wf(),
            old(self).at() < old(self).toks().len(),
            old(self).cur() == Tok::Keyword(KeyWord::STATIC) || old(self).cur() == Tok::Keyword(
                KeyWord::FIELD,
            ),
        ensures
            Self::frame(*old(self), *final(self)),
            (r matches Err(e) ==> engine_error(e)),
            final(self).out() == old(self).out(),
            final(self).lc() == old(self).lc(),
            final(self).st().sub_map() == old(self).st().sub_map(),
            (r matches Ok(()) ==> final(self).at() > old(self).at()),
            (r matches Ok(()) ==> sp_class_var_dec(old(self).toks(), old(self).pst()) == Ok::<
                ParseState,
                CompileError,
            >(final(self).pst())),
            (r matches Err(e) ==> sp_class_var_dec(old(self).toks(), old(self).pst()) == Err::<
                ParseState,
                CompileError,
            >(e)),
    {
        let ghost pre = *self;
        let ghost toks = pre.toks();
        let var_kind = match self.tokenizer.key_word() {
            KeyWord::STATIC => IdentifierKind::STATIC,
            KeyWord::FIELD => IdentifierKind::FIELD,
            _ => {
                return Err(CompileError::UnexpectedToken);
            },
        };
        self.tokenizer.advance();
        proof {
            assert(self.pst() =~~= bump(pre.pst()));
        }
        let var_type = match self.read_type_name() {
            Ok(t) => t,
            Err(e) => {
                return Err(e);
            },
        };
        let name = match self.read_identifier() {
            Ok(n) => n,
            Err(e) => {
                return Err(e);
            },
        };
        if self.symbol_table.var_count(var_kind) == u16::MAX {
            return Err(CompileError::TooManySymbols);
        }
        let ghost before = *self;
        let ghost nm = name@;
        self.symbol_table.define(name, var_type.clone(), var_kind);
        proof {
            assert(model_of(self.st()) =~~= sm_define(
                model_of(before.st()),
                nm,
                var_type@,
                var_kind,
            ));
            assert(self.pst() =~~= ParseState {
                sym: sm_define(model_of(before.st()), nm, var_type@, var_kind),
                ..before.pst()
            });
            assert(sp_class_var_dec(toks, pre.pst()) == sp_decl_names(
                toks,
                self.pst(),
                var_type@,
                var_kind,
            ));
        }
        while self.peek_symbol(',')
            invariant
                pre == *old(self),
                toks == pre.toks(),
                self.wf(),
                self.toks() == pre.toks(),
                pre.at() < self.at() <= self.toks().len(),
                self.out() == pre.out(),
                self.cls() == pre.cls(),
                self.lc() == pre.lc(),
                self.st().sub_map() == pre.st().sub_map(),
                forall|k: IdentifierKind| self.st().sub_count(k) == pre.st().sub_count(k),
                sp_class_var_dec(toks, pre.pst()) == sp_decl_names(
                    toks,
                    self.pst(),
                    var_type@,
                    var_kind,
                ),
            decreases self.toks().len() - self.at(),
        {
            let ghost it = *self;
            self.tokenizer.advance();
            proof {
                assert(self.pst() =~~= bump(it.pst()));
            }
            let next_name = match self.read_identifier() {
                Ok(n) => n,
                Err(e) => {
                    return Err(e);
                },
            };
            if self.symbol_table.var_count(var_kind) == u16::MAX {
                return Err(CompileError::TooManySymbols);
            }
            let ghost before2 = *self;
            let ghost nm2 = next_name@;
            self.symbol_table.define(next_name, var_type.clone(), var_kind);
            proof {
                assert(model_of(self.st()) =~~= sm_define(
                    model_of(before2.st()),
                    nm2,
                    var_type@,
                    var_kind,
                ));
                assert(self.pst() =~~= ParseState {
                    sym: sm_define(model_of(before2.st()), nm2, var_type@, var_kind),
                    ..before2.pst()
                });
                assert(sp_decl_names(toks, it.pst(), var_type@, var_kind) == sp_decl_names(
                    toks,
                    self.pst(),
                    var_type@,
                    var_kind,
                ));
            }
        }
        match self.expect_symbol(';') {
            Ok(()) => {},
            Err(e) => {
                return Err(e);
            },
        }
        Ok(())
    }

    /// Compiles one subroutine-level variable declaration: `var`, a type,
    /// and one or more names that go into the subroutine scope as Locals.
    #[verifier::loop_isolation(false)]
    fn compile_var_dec(&mut self) -> (r: Result<(), CompileError>)
        requires
            old(self).wf(),
            old(self).at() < old(self).toks().len(),
            old(self).cur() == Tok::Keyword(KeyWord::VAR),
        ensures
            Self::frame(*old(self), *final(self)),
            (r matches Err(e) ==> engine_error(e)),
            final(self).out() == old(self).out(),
            final(self).lc() == old(self).lc(),
            final(self).st().class_map() == old(self).st().class_map(),
            forall|k: IdentifierKind|
                final(self).st().class_count(k) == old(self).st().class_count(k),
            (r matches Ok(()) ==> final(self).at() > old(self).at()),
            (r matches Ok(()) ==> sp_var_dec(old(self).toks(), old(self).pst()) == Ok::<
                ParseState,
                CompileError,
            >(final(self).pst())),
            (r matches Err(e) ==> sp_var_dec(old(self).toks(), old(self).pst()) == Err::<
                ParseState,
                CompileError,
            >(e)),
    {
        let ghost pre = *self;
        let ghost toks = pre.toks();
        self.tokenizer.advance();
        proof {
            assert(self.pst() =~~= bump(pre.pst()));
        }
        let var_type = match self.read_type_name() {
            Ok(t) => t,
            Err(e) => {
                return Err(e);
            },
        };
        let name = match self.read_identifier() {
            Ok(n) => n,
            Err(e) => {
                return Err(e);
            },
        };
        if self.symbol_table.var_count(IdentifierKind::VAR) == u16::MAX {
            return Err(CompileError::TooManySymbols);
        }
        let ghost before = *self;
        let ghost nm = name@;
        self.symbol_table.define(name, var_type.clone(), IdentifierKind::VAR);
        proof {
            assert(self.pst() =~~= ParseState {
                sym: sm_define(model_of(before.st()), nm, var_type@, IdentifierKind::VAR),
                ..before.pst()
            });
            assert(sp_var_dec(toks, pre.pst()) == sp_decl_names(
                toks,
                self.pst(),
                var_type@,
                IdentifierKind::VAR,
            ));
        }
        while self.peek_symbol(',')
            invariant
                pre == *old(self),
                toks == pre.toks(),
                self.wf(),
                self.toks() == pre.toks(),
                pre.at() < self.at() <= self.toks().len(),
                self.out() == pre.out(),
                self.cls() == pre.cls(),
                self.lc() == pre.lc(),
                self.st().class_map() == pre.st().class_map(),
                forall|k: IdentifierKind| self.st().class_count(k) == pre.st().class_count(k),
                sp_var_dec(toks, pre.pst()) == sp_decl_names(
                    toks,
                    self.pst(),
                    var_type@,
                    IdentifierKind::VAR,
                ),
            decreases self.toks().len() - self.at(),
        {
            let ghost it = *self;
            self.tokenizer.advance();
            proof {
                assert(self.pst() =~~= bump(it.pst()));
            }
            let next_name = match self.read_identifier() {
                Ok(n) => n,
                Err(e) => {
                    return Err(e);
                },
            };
            if self.symbol_table.var_count(IdentifierKind::VAR) == u16::MAX {
                return Err(CompileError::TooManySymbols);
            }
            let ghost before2 = *self;
            let ghost nm2 = next_name@;
            self.symbol_table.define(next_name, var_type.clone(), IdentifierKind::VAR);
            proof {
                assert(self.pst() =~~= ParseState {
                    sym: sm_define(model_of(before2.st()), nm2, var_type@, IdentifierKind::VAR),
                    ..before2.pst()
                });
                assert(sp_decl_names(toks, it.pst(), var_type@, IdentifierKind::VAR)
                    == sp_decl_names(toks, self.pst(), var_type@, IdentifierKind::VAR));
            }
        }
        match self.expect_symbol(';') {
            Ok(()) => {},
            Err(e) => {
                return Err(e);
            },
        }
        Ok(())
    }

    /// Compiles a parameter list, defining each parameter as an Argument;
    /// the list ends before the closing parenthesis, which the caller
    /// consumes. Nothing is emitted.
    #[verifier::loop_isolation(false)]
    fn compile_parameter_list(&mut self) -> (r: Result<(), CompileError>)
        requires
            old(self).wf(),
        ensures
            Self::frame(*old(self), *final(self)),
            (r matches Err(e) ==> engine_error(e)),
            final(self).out() == old(self).out(),
            final(self).lc() == old(self).lc(),
            final(self).st().class_map() == old(self).st().class_map(),
            forall|k: IdentifierKind|
                final(self).st().class_count(k) == old(self).st().class_count(k),
            (r matches Ok(()) ==> sp_parameter_list(old(self).toks(), old(self).pst()) == Ok::<
                ParseState,
                CompileError,
            >(final(self).pst())),
            (r matches Err(e) ==> sp_parameter_list(old(self).toks(), old(self).pst()) == Err::<
                ParseState,
                CompileError,
            >(e)),
    {
        let ghost pre = *self;
        let ghost toks = pre.toks();
        if self.peek_symbol(')') {
            return Ok(());
        }
        let var_type = match self.read_type_name() {
            Ok(t) => t,
            Err(e) => {
                return Err(e);
            },
        };
        let name = match self.read_identifier() {
            Ok(n) => n,
            Err(e) => {
                return Err(e);
            },
        };
        if self.symbol_table.var_count(IdentifierKind::ARG) == u16::MAX {
            return Err(CompileError::TooManySymbols);
        }
        let ghost before = *self;
        let ghost nm = name@;
        let ghost tv = var_type@;
        self.symbol_table.define(name, var_type, IdentifierKind::ARG);
        proof {
            assert(self.pst() =~~= ParseState {
                sym: sm_define(model_of(before.st()), nm, tv, IdentifierKind::ARG),
                ..before.pst()
            });
            assert(sp_parameter_list(toks, pre.pst()) == sp_params_rest(toks, self.pst()));
        }
        while self.peek_symbol(',')
            invariant
                pre == *old(self),
                toks == pre.toks(),
                self.wf(),
                self.toks() == pre.toks(),
                pre.at() <= self.at() <= self.toks().len(),
                self.out() == pre.out(),
                self.cls() == pre.cls(),
                self.lc() == pre.lc(),
                self.st().class_map() == pre.st().class_map(),
                forall|k: IdentifierKind| self.st().class_count(k) == pre.st().class_count(k),
                sp_parameter_list(toks, pre.pst()) == sp_params_rest(toks, self.pst()),
            decreases self.toks().len() - self.at(),
        {
            let ghost it = *self;
            self.tokenizer.advance();
            proof {
                assert(self.pst() =~~= bump(it.pst()));
            }
            let next_type = match self.read_type_name() {
                Ok(t) => t,
                Err(e) => {
                    return Err(e);
                },
            };
            let next_name = match self.read_identifier() {
                Ok(n) => n,
                Err(e) => {
                    return Err(e);
                },
            };
            if self.symbol_table.var_count(IdentifierKind::ARG) == u16::MAX {
                return Err(CompileError::TooManySymbols);
            }
            let ghost before2 = *self;
            let ghost nm2 = next_name@;
            let ghost tv2 = next_type@;
            self.symbol_table.define(next_name, next_type, IdentifierKind::ARG);
            proof {
                assert(self.pst() =~~= ParseState {
                    sym: sm_define(model_of(before2.st()), nm2, tv2, IdentifierKind::ARG),
                    ..before2.pst()
                });
                assert(sp_params_rest(toks, it.pst()) == sp_params_rest(toks, self.pst()));
            }
        }
        Ok(())
    }

    /// Compiles one subroutine. The subroutine scope and the label counter
    /// are reset first; a method additionally defines the implicit receiver,
    /// which consumes argument index zero. After the function header a
    /// constructor allocates one cell per class field and establishes the
    /// object pointer, and a method moves argument zero into the object
    /// pointer.
    #[verifier::loop_isolation(false)]
    #[verifier::rlimit(40)]
    fn compile_subroutine(&mut self) -> (r: Result<(), CompileError>)
        requires
            old(self).wf(),
            old(self).at() < old(self).toks().len(),
            old(self).cur() == Tok::Keyword(KeyWord::CONSTRUCTOR) || old(self).cur()
                == Tok::Keyword(KeyWord::FUNCTION) || old(self).cur() == Tok::Keyword(
                KeyWord::METHOD,
            ),
        ensures
            Self::frame(*old(self), *final(self)),
            (r matches Err(e) ==> engine_error(e)),
            final(self).st().class_map() == old(self).st().class_map(),
            (r matches Ok(()) ==> {
                let app = appended(old(self).out(), final(self).out());
                &&& final(self).at() > old(self).at()
                &&& old(self).at() + 2 < old(self).toks().len()
                &&& app.len() >= 1
                &&& (old(self).toks()[old(self).at() + 2] matches Tok::Identifier(nm)
                    && exists|nl: u16| #[trigger] app[0] == VmCmd::Function(
                    old(self).cls() + "."@ + nm,
                    nl,
                ))
                &&& (old(self).cur() == Tok::Keyword(KeyWord::CONSTRUCTOR) ==> app.len() >= 4
                    && app.subrange(1, 4) == ctor_prologue(
                    old(self).st().class_count(IdentifierKind::FIELD),
                ))
                &&& (old(self).cur() == Tok::Keyword(KeyWord::METHOD) ==> app.len() >= 3
                    && app.subrange(1, 3) == method_prologue())
            }),
            (r matches Ok(()) ==> sp_subroutine(old(self).toks(), old(self).cls(), old(self).pst())
                == Ok::<ParseState, CompileError>(final(self).pst())),
            (r matches Err(e) ==> sp_subroutine(old(self).toks(), old(self).cls(), old(self).pst())
                == Err::<ParseState, CompileError>(e)),
    {
        let ghost pre = *self;
        let ghost toks = pre.toks();
        let ghost cls = pre.cls();
        self.symbol_table.start_subroutine();
        self.loop_counter = 0;
        let sub_type = self.tokenizer.key_word();
        self.tokenizer.advance();
        if matches!(sub_type, KeyWord::METHOD) {
            // the implicit receiver takes argument index zero
            self.symbol_table.define(
                String::from_str("this"),
                self.class_name.clone(),
                IdentifierKind::ARG,
            );
        }
        proof {
            let sym0 = sm_reset(model_of(pre.st()));
            assert(self.pst() =~~= ParseState {
                at: pre.at() + 1,
                out: pre.out(),
                lc: 0,
                sym: if pre.cur() == Tok::Keyword(KeyWord::METHOD) {
                    sm_define(sym0, "this"@, cls, IdentifierKind::ARG)
                } else {
                    sym0
                },
            });
        }
        if !self.tokenizer.has_current() {
            return Err(CompileError::UnexpectedEnd);
        }
        let ghost s1 = *self;
        // the return category (void or a type) is not recorded
        self.tokenizer.advance();
        proof {
            assert(self.pst() =~~= bump(s1.pst()));
        }
        let name = match self.read_identifier() {
            Ok(n) => n,
            Err(e) => {
                return Err(e);
            },
        };
        let mut full = self.class_name.clone();
        full.append(".");
        full.append(name.as_str());
        match self.expect_symbol('(') {
            Ok(()) => {},
            Err(e) => {
                return Err(e);
            },
        }
        match self.compile_parameter_list() {
            Ok(()) => {},
            Err(e) => {
                return Err(e);
            },
        }
        match self.expect_symbol(')') {
            Ok(()) => {},
            Err(e) => {
                return Err(e);
            },
        }
        match self.expect_symbol('{') {
            Ok(()) => {},
            Err(e) => {
                return Err(e);
            },
        }
        let ghost s6 = *self;
        while self.peek_keyword(KeyWord::VAR)
            invariant
                pre == *old(self),
                toks == pre.toks(),
                self.wf(),
                self.toks() == pre.toks(),
                pre.at() < self.at() <= self.toks().len(),
                self.out() == pre.out(),
                self.cls() == pre.cls(),
                self.st().class_map() == pre.st().class_map(),
                forall|k: IdentifierKind| self.st().class_count(k) == pre.st().class_count(k),
                self.st().sub_count(IdentifierKind::FIELD) == 0,
                sp_var_decs(toks, s6.pst()) == sp_var_decs(toks, self.pst()),
            decreases self.toks().len() - self.at(),
        {
            let ghost it = *self;
            match self.compile_var_dec() {
                Ok(()) => {},
                Err(e) => {
                    return Err(e);
                },
            }
            proof {
                assert(sp_var_decs(toks, it.pst()) == sp_var_decs(toks, self.pst()));
            }
        }
        proof {
            assert(sp_var_decs(toks, s6.pst()) == Ok::<ParseState, CompileError>(self.pst()));
        }
        let ghost s7 = *self;
        let n_locals = self.symbol_table.var_count(IdentifierKind::VAR);
        proof {
            assert(n_locals == sm_count(s7.pst().sym, IdentifierKind::VAR));
        }
        let ghost nm = name@;
        let ghost fullv = full@;
        self.vm_writer.write_function(full, n_locals);
        let ghost m2 = *self;
        proof {
            lemma_extends_push(pre.out(), VmCmd::Function(fullv, n_locals));
        }
        if matches!(sub_type, KeyWord::CONSTRUCTOR) {
            let n_fields = self.symbol_table.var_count(IdentifierKind::FIELD);
            self.vm_writer.write_push(Segment::CONSTANT, n_fields);
            let ghost m3 = *self;
            self.vm_writer.write_call(String::from_str("Memory.alloc"), 1);
            let ghost m4 = *self;
            self.vm_writer.write_pop(Segment::POINTER, 0);
            proof {
                lemma_extends_push(m2.out(), VmCmd::Push(Segment::CONSTANT, n_fields));
                lemma_extends_trans(pre.out(), m2.out(), m3.out());
                lemma_extends_push(m3.out(), VmCmd::Call("Memory.alloc"@, 1));
                lemma_extends_trans(pre.out(), m3.out(), m4.out());
                lemma_extends_push(m4.out(), VmCmd::Pop(Segment::POINTER, 0));
                lemma_extends_trans(pre.out(), m4.out(), self.out());
                assert(appended(pre.out(), self.out()) =~= seq![
                    VmCmd::Function(fullv, n_locals),
                    VmCmd::Push(Segment::CONSTANT, n_fields),
                    VmCmd::Call("Memory.alloc"@, 1),
                    VmCmd::Pop(Segment::POINTER, 0),
                ]);
            }
        } else if matches!(sub_type, KeyWord::METHOD) {
            self.vm_writer.write_push(Segment::ARG, 0);
            let ghost m3 = *self;
            self.vm_writer.write_pop(Segment::POINTER, 0);
            proof {
                lemma_extends_push(m2.out(), VmCmd::Push(Segment::ARG, 0));
                lemma_extends_trans(pre.out(), m2.out(), m3.out());
                lemma_extends_push(m3.out(), VmCmd::Pop(Segment::POINTER, 0));
                lemma_extends_trans(pre.out(), m3.out(), self.out());
                assert(appended(pre.out(), self.out()) =~= seq![
                    VmCmd::Function(fullv, n_locals),
                    VmCmd::Push(Segment::ARG, 0),
                    VmCmd::Pop(Segment::POINTER, 0),
                ]);
            }
        }
        let ghost m5 = *self;
        proof {
            let hdr = VmCmd::Function(fullv, n_locals);
            let pro = if pre.cur() == Tok::Keyword(KeyWord::CONSTRUCTOR) {
                ctor_prologue(sm_count(s7.pst().sym, IdentifierKind::FIELD))
            } else if pre.cur() == Tok::Keyword(KeyWord::METHOD) {
                method_prologue()
            } else {
                Seq::<VmCmd>::empty()
            };
            assert(m5.pst() =~~= emitn(emit1(s7.pst(), hdr), pro));
        }
        match self.compile_statements() {
            Ok(()) => {},
            Err(e) => {
                return Err(e);
            },
        }
        match self.expect_symbol('}') {
            Ok(()) => {},
            Err(e) => {
                return Err(e);
            },
        }
        proof {
            lemma_extends_trans(pre.out(), m5.out(), self.out());
            let app = appended(pre.out(), self.out());
            let n0 = pre.out().len() as int;
            lemma_extends_index(m2.out(), self.out(), n0);
            assert(app[0] == VmCmd::Function(fullv, n_locals));
            if pre.cur() == Tok::Keyword(KeyWord::CONSTRUCTOR) {
                lemma_extends_index(m5.out(), self.out(), n0 + 1);
                lemma_extends_index(m5.out(), self.out(), n0 + 2);
                lemma_extends_index(m5.out(), self.out(), n0 + 3);
                assert(app.subrange(1, 4) =~= appended(pre.out(), m5.out()).subrange(1, 4));
                assert(app.subrange(1, 4) =~= ctor_prologue(
                    pre.st().class_count(IdentifierKind::FIELD),
                ));
            }
            if pre.cur() == Tok::Keyword(KeyWord::METHOD) {
                lemma_extends_index(m5.out(), self.out(), n0 + 1);
                lemma_extends_index(m5.out(), self.out(), n0 + 2);
                assert(app.subrange(1, 3) =~= method_prologue());
            }
            assert(pre.at() + 2 < pre.toks().len());
            assert(pre.toks()[pre.at() + 2] matches Tok::Identifier(x) && x == nm);
            assert(fullv == pre.cls() + "."@ + nm);
            assert(app[0] == VmCmd::Function(fullv, n_locals));
            assert(exists|nl: u16| #[trigger] app[0] == VmCmd::Function(pre.cls() + "."@ + nm, nl));
        }
        Ok(())
    }

    /// Compiles a whole class: the `class` keyword, the class name, the
    /// class-level variable declarations, then every subroutine.
    #[verifier::loop_isolation(false)]
    pub fn compile_class(&mut self) -> (r: Result<(), CompileError>)
        requires
            old(self).wf(),
        ensures
            final(self).wf(),
            final(self).toks() == old(self).toks(),
            old(self).at() <= final(self).at() <= old(self).toks().len(),
            extends(old(self).out(), final(self).out()),
            (r matches Err(e) ==> engine_error(e)),
            (r matches Ok(()) ==> old(self).at() + 1 < old(self).toks().len() && (old(self).toks()[
                old(self).at() + 1
            ] matches Tok::Identifier(nm) && final(self).cls() == nm)),
            (r matches Ok(()) ==> sp_class(old(self).toks(), old(self).pst()) == Ok::<
                (ParseState, Seq<char>),
                CompileError,
            >((final(self).pst(), final(self).cls()))),
            (r matches Err(e) ==> sp_class(old(self).toks(), old(self).pst()) == Err::<
                (ParseState, Seq<char>),
                CompileError,
            >(e)),
    {
        let ghost pre = *self;
        let ghost toks = pre.toks();
        if !self.peek_keyword(KeyWord::CLASS) {
            return Err(
                if self.tokenizer.has_current() {
                    CompileError::UnexpectedToken
                } else {
                    CompileError::UnexpectedEnd
                },
            );
        }
        self.tokenizer.advance();
        proof {
            assert(self.pst() =~~= bump(pre.pst()));
        }
        let name = match self.read_identifier() {
            Ok(n) => n,
            Err(e) => {
                return Err(e);
            },
        };
        let ghost nmv = name@;
        let ghost before_name = self.pst();
        self.class_name = name;
        proof {
            assert(self.pst() =~~= before_name);
        }
        match self.expect_symbol('{') {
            Ok(()) => {},
            Err(e) => {
                return Err(e);
            },
        }
        let ghost named = *self;
        while self.peek_keyword(KeyWord::STATIC) || self.peek_keyword(KeyWord::FIELD)
            invariant
                named.cls() == self.cls(),
                self.wf(),
                self.toks() == pre.toks(),
                pre.at() <= self.at() <= self.toks().len(),
                self.out() == pre.out(),
                sp_class_vars(toks, named.pst()) == sp_class_vars(toks, self.pst()),
            decreases self.toks().len() - self.at(),
        {
            let ghost it = *self;
            match self.compile_class_var_dec() {
                Ok(()) => {},
                Err(e) => {
                    return Err(e);
                },
            }
            proof {
                assert(sp_class_vars(toks, it.pst()) == sp_class_vars(toks, self.pst()));
            }
        }
        proof {
            assert(sp_class_vars(toks, named.pst()) == Ok::<ParseState, CompileError>(self.pst()));
        }
        let ghost m1 = *self;
        while self.peek_keyword(KeyWord::CONSTRUCTOR) || self.peek_keyword(KeyWord::FUNCTION)
            || self.peek_keyword(KeyWord::METHOD)
            invariant
                named.cls() == self.cls(),
                self.wf(),
                self.toks() == pre.toks(),
                pre.at() <= self.at() <= self.toks().len(),
                extends(pre.out(), self.out()),
                sp_subs(toks, nmv, m1.pst()) == sp_subs(toks, nmv, self.pst()),
            decreases self.toks().len() - self.at(),
        {
            let ghost m = *self;
            match self.compile_subroutine() {
                Ok(()) => {},
                Err(e) => {
                    proof {
                        lemma_extends_trans(pre.out(), m.out(), self.out());
                    }
                    return Err(e);
                },
            }
            proof {
                lemma_extends_trans(pre.out(), m.out(), self.out());
                assert(sp_subs(toks, nmv, m.pst()) == sp_subs(toks, nmv, self.pst()));
            }
        }
        proof {
            assert(sp_subs(toks, nmv, m1.pst()) == Ok::<ParseState, CompileError>(self.pst()));
        }
        match self.expect_symbol('}') {
            Ok(()) => {},
            Err(e) => {
                return Err(e);
            },
        }
        Ok(())
    }
}

} // verus!
