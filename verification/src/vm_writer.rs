use vstd::prelude::*;
use vstd::string::StringExecFns;
use crate::strutil::{dec_digits, u16_to_string};

verus! {

/// A storage segment of the stack machine. The segment set is closed, so a
/// command can never carry a misspelt segment name.
#[derive(Debug, Clone, Copy, PartialEq, Eq, Structural)]
pub enum Segment {
    ARG,
    LOCAL,
    STATIC,
    THIS,
    THAT,
    POINTER,
    TEMP,
    CONSTANT,
}

/// An arithmetic or logical instruction of the stack machine.
#[derive(Debug, Clone, Copy, PartialEq, Eq, Structural)]
pub enum Command {
    ADD,
    SUB,
    NEG,
    EQ,
    GT,
    LT,
    AND,
    OR,
    NOT,
}

/// One well-formed stack-machine command, held in structured form so that
/// every emitted line is one of the closed command shapes.
#[derive(Debug, Clone, PartialEq, Eq)]
pub enum VmCommand {
    Push(Segment, u16),
    Pop(Segment, u16),
    Arith(Command),
    Label(String),
    Goto(String),
    IfGoto(String),
    Call(String, u16),
    Function(String, u16),
    Return,
}

/// The mathematical shape of one stack-machine command.
pub ghost enum VmCmd {
    Push(Segment, u16),
    Pop(Segment, u16),
    Arith(Command),
    Label(Seq<char>),
    Goto(Seq<char>),
    IfGoto(Seq<char>),
    Call(Seq<char>, u16),
    Function(Seq<char>, u16),
    Return,
}

impl View for VmCommand {
    type V = VmCmd;

    open spec fn view(&self) -> VmCmd {
        match self {
            VmCommand::Push(s, i) => VmCmd::Push(*s, *i),
            VmCommand::Pop(s, i) => VmCmd::Pop(*s, *i),
            VmCommand::Arith(c) => VmCmd::Arith(*c),
            VmCommand::Label(l) => VmCmd::Label(l@),
            VmCommand::Goto(l) => VmCmd::Goto(l@),
            VmCommand::IfGoto(l) => VmCmd::IfGoto(l@),
            VmCommand::Call(n, k) => VmCmd::Call(n@, *k),
            VmCommand::Function(n, k) => VmCmd::Function(n@, *k),
            VmCommand::Return => VmCmd::Return,
        }
    }
}

/// The textual name of a segment, as it appears in a command line.
pub open spec fn seg_name(s: Segment) -> Seq<char> {
    match s {
        Segment::ARG => "argument"@,
        Segment::LOCAL => "local"@,
        Segment::STATIC => "static"@,
        Segment::THIS => "this"@,
        Segment::THAT => "that"@,
        Segment::POINTER => "pointer"@,
        Segment::TEMP => "temp"@,
        Segment::CONSTANT => "constant"@,
    }
}

/// The textual name of an arithmetic command.
pub open spec fn cmd_name(c: Command) -> Seq<char> {
    match c {
        Command::ADD => "add"@,
        Command::SUB => "sub"@,
        Command::NEG => "neg"@,
        Command::EQ => "eq"@,
        Command::GT => "gt"@,
        Command::LT => "lt"@,
        Command::AND => "and"@,
        Command::OR => "or"@,
        Command::NOT => "not"@,
    }
}

/// The exact line of text that a command prints to, without its newline.
pub open spec fn line_of(c: VmCmd) -> Seq<char> {
    match c {
        VmCmd::Push(s, i) => "push "@ + seg_name(s) + " "@ + dec_digits(i as nat),
        VmCmd::Pop(s, i) => "pop "@ + seg_name(s) + " "@ + dec_digits(i as nat),
        VmCmd::Arith(a) => cmd_name(a),
        VmCmd::Label(l) => "label "@ + l,
        VmCmd::Goto(l) => "goto "@ + l,
        VmCmd::IfGoto(l) => "if-goto "@ + l,
        VmCmd::Call(n, k) => "call "@ + n + " "@ + dec_digits(k as nat),
        VmCmd::Function(n, k) => "function "@ + n + " "@ + dec_digits(k as nat),
        VmCmd::Return => "return"@,
    }
}

fn segment_text(s: Segment) -> (r: &'static str)
    ensures
        r@ == seg_name(s),
{
    match s {
        Segment::ARG => "argument",
        Segment::LOCAL => "local",
        Segment::STATIC => "static",
        Segment::THIS => "this",
        Segment::THAT => "that",
        Segment::POINTER => "pointer",
        Segment::TEMP => "temp",
        Segment::CONSTANT => "constant",
    }
}

fn command_text(c: Command) -> (r: &'static str)
    ensures
        r@ == cmd_name(c),
{
    match c {
        Command::ADD => "add",
        Command::SUB => "sub",
        Command::NEG => "neg",
        Command::EQ => "eq",
        Command::GT => "gt",
        Command::LT => "lt",
        Command::AND => "and",
        Command::OR => "or",
        Command::NOT => "not",
    }
}

fn keyword_line(head: &str, label: &String) -> (r: String)
    ensures
        r@ == head@ + label@,
{
    let mut r = String::from_str(head);
    r.append(label.as_str());
    r
}

fn indexed_line(head: &str, name: &str, index: u16) -> (r: String)
    ensures
        r@ == head@ + name@ + " "@ + dec_digits(index as nat),
{
    let mut r = String::from_str(head);
    r.append(name);
    r.append(" ");
    let d = u16_to_string(index);
    r.append(d.as_str());
    r
}

/// The text line of one command.
pub fn command_line(c: &VmCommand) -> (r: String)
    ensures
        r@ == line_of(c@),
{
    match c {
        VmCommand::Push(s, i) => indexed_line("push ", segment_text(*s), *i),
        VmCommand::Pop(s, i) => indexed_line("pop ", segment_text(*s), *i),
        VmCommand::Arith(a) => String::from_str(command_text(*a)),
        VmCommand::Label(l) => keyword_line("label ", l),
        VmCommand::Goto(l) => keyword_line("goto ", l),
        VmCommand::IfGoto(l) => keyword_line("if-goto ", l),
        VmCommand::Call(n, k) => indexed_line("call ", n.as_str(), *k),
        VmCommand::Function(n, k) => indexed_line("function ", n.as_str(), *k),
        VmCommand::Return => String::from_str("return"),
    }
}

/// The writer of stack-machine commands. Each write appends exactly one
/// well-formed command; the text of the whole program is read back with
/// `output`.
pub struct VMWriter {
    cmds: Vec<VmCommand>,
}

impl View for VMWriter {
    type V = Seq<VmCmd>;

    closed spec fn view(&self) -> Seq<VmCmd> {
        Seq::new(self.cmds@.len(), |i: int| self.cmds@[i]@)
    }
}

impl VMWriter {
    pub fn new() -> (r: VMWriter)
        ensures
            r@ == Seq::<VmCmd>::empty(),
    {
        let r = VMWriter { cmds: Vec::new() };
        proof {
            assert(r@ =~= Seq::<VmCmd>::empty());
        }
        r
    }

    fn emit(&mut self, c: VmCommand)
        ensures
            final(self)@ == old(self)@.push(c@),
    {
        let ghost v = c@;
        self.cmds.push(c);
        proof {
            assert(final(self)@ =~= old(self)@.push(v));
        }
    }

    pub fn write_push(&mut self, segment: Segment, index: u16)
        ensures
            final(self)@ == old(self)@.push(VmCmd::Push(segment, index)),
    {
        self.emit(VmCommand::Push(segment, index));
    }

    pub fn write_pop(&mut self, segment: Segment, index: u16)
        ensures
            final(self)@ == old(self)@.push(VmCmd::Pop(segment, index)),
    {
        self.emit(VmCommand::Pop(segment, index));
    }

    pub fn write_arithmetic(&mut self, command: Command)
        ensures
            final(self)@ == old(self)@.push(VmCmd::Arith(command)),
    {
        self.emit(VmCommand::Arith(command));
    }

    pub fn write_label(&mut self, label: String)
        ensures
            final(self)@ == old(self)@.push(VmCmd::Label(label@)),
    {
        self.emit(VmCommand::Label(label));
    }

    pub fn write_goto(&mut self, label: String)
        ensures
            final(self)@ == old(self)@.push(VmCmd::Goto(label@)),
    {
        self.emit(VmCommand::Goto(label));
    }

    pub fn write_if(&mut self, label: String)
        ensures
            final(self)@ == old(self)@.push(VmCmd::IfGoto(label@)),
    {
        self.emit(VmCommand::IfGoto(label));
    }

    pub fn write_call(&mut self, name: String, n_args: u16)
        ensures
            final(self)@ == old(self)@.push(VmCmd::Call(name@, n_args)),
    {
        self.emit(VmCommand::Call(name, n_args));
    }

    pub fn write_function(&mut self, name: String, n_locals: u16)
        ensures
            final(self)@ == old(self)@.push(VmCmd::Function(name@, n_locals)),
    {
        self.emit(VmCommand::Function(name, n_locals));
    }

    pub fn write_return(&mut self)
        ensures
            final(self)@ == old(self)@.push(VmCmd::Return),
    {
        self.emit(VmCommand::Return);
    }

    /// The emitted program, one command line per element, in emission order.
    pub fn output(&self) -> (r: Vec<String>)
        ensures
            r@.len() == self@.len(),
            forall|i: int| 0 <= i < r@.len() ==> #[trigger] r@[i]@ == line_of(self@[i]),
    {
        let mut r: Vec<String> = Vec::new();
        let mut i: usize = 0;
        while i < self.cmds.len()
            invariant
                i <= self.cmds.len(),
                self@.len() == self.cmds@.len(),
                r@.len() == i,
                forall|j: int| 0 <= j < i ==> #[trigger] r@[j]@ == line_of(self@[j]),
            decreases self.cmds.len() - i,
        {
            r.push(command_line(&self.cmds[i]));
            i = i + 1;
        }
        r
    }
}

} // verus!
