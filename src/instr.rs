use vstd::prelude::*;

verus! {

/// Highest register index that an instruction may name.
pub const MAX_REG: usize = 4;

/// An operand: a literal word or a register reference.
#[derive(Debug, Clone, Copy, PartialEq, Eq, Structural)]
pub enum Value {
    Imm(u32),
    Reg(usize),
}

impl Value {
    /// A literal is always well formed; a register reference is when its
    /// index is at most `MAX_REG`.
    pub open spec fn is_valid(&self) -> bool {
        match self {
            Value::Imm(_) => true,
            Value::Reg(r) => *r <= MAX_REG,
        }
    }

    pub fn valid(&self) -> (r: bool)
        ensures
            r == self.is_valid(),
            r == match self {
                Value::Imm(_) => true,
                Value::Reg(i) => *i <= 4,
            },
    {
        match self {
            Value::Imm(_) => true,
            Value::Reg(r) => *r <= MAX_REG,
        }
    }
}


/// One machine instruction with its operands.
#[derive(Debug, Clone)]
pub enum Inst {
    ADD(usize, Value),
    SUB(usize, Value),
    MUL(usize, Value),
    DIV(usize, Value),
    AND(usize, Value),
    OR(usize, Value),
    XOR(usize, Value),
    NOT(usize),
    MOV(usize, Value),
    RSFT(usize, Value),
    LSFT(usize, Value),
    CALL(String),
    RET,
    EQ(Value, Value),
    LBL(String),
    JMP(String),
    TJMP(String),
    FJMP(String),
    PUSH(Value),
    POP(usize),
    HLT,
    DISPNUM(usize),
}

impl Inst {
    /// Register operands are at most `MAX_REG`, value operands are well
    /// formed, and every label that is jumped to or called is in `labels`.
    pub open spec fn is_valid(&self, labels: Map<Seq<char>, usize>) -> bool {
        match self {
            Inst::ADD(r, v) => *r <= MAX_REG && v.is_valid(),
            Inst::SUB(r, v) => *r <= MAX_REG && v.is_valid(),
            Inst::MUL(r, v) => *r <= MAX_REG && v.is_valid(),
            Inst::DIV(r, v) => *r <= MAX_REG && v.is_valid(),
            Inst::AND(r, v) => *r <= MAX_REG && v.is_valid(),
            Inst::OR(r, v) => *r <= MAX_REG && v.is_valid(),
            Inst::XOR(r, v) => *r <= MAX_REG && v.is_valid(),
            Inst::NOT(r) => *r <= MAX_REG,
            Inst::MOV(r, v) => *r <= MAX_REG && v.is_valid(),
            Inst::RSFT(r, v) => *r <= MAX_REG && v.is_valid(),
            Inst::LSFT(r, v) => *r <= MAX_REG && v.is_valid(),
            Inst::CALL(s) => labels.contains_key(s@),
            Inst::RET => true,
            Inst::EQ(a, b) => a.is_valid() && b.is_valid(),
            Inst::LBL(_) => true,
            Inst::JMP(s) => labels.contains_key(s@),
            Inst::TJMP(s) => labels.contains_key(s@),
            Inst::FJMP(s) => labels.contains_key(s@),
            Inst::PUSH(v) => v.is_valid(),
            Inst::POP(r) => *r <= MAX_REG,
            Inst::HLT => true,
            Inst::DISPNUM(r) => *r <= MAX_REG,
        }
    }

    pub fn valid(&self, labels: &LabelTable) -> (r: bool)
        ensures
            r == self.is_valid(labels@),
    {
        match self {
            Inst::ADD(r, v) => *r <= MAX_REG && v.valid(),
            Inst::SUB(r, v) => *r <= MAX_REG && v.valid(),
            Inst::MUL(r, v) => *r <= MAX_REG && v.valid(),
            Inst::DIV(r, v) => *r <= MAX_REG && v.valid(),
            Inst::AND(r, v) => *r <= MAX_REG && v.valid(),
            Inst::OR(r, v) => *r <= MAX_REG && v.valid(),
            Inst::XOR(r, v) => *r <= MAX_REG && v.valid(),
            Inst::NOT(r) => *r <= MAX_REG,
            Inst::MOV(r, v) => *r <= MAX_REG && v.valid(),
            Inst::RSFT(r, v) => *r <= MAX_REG && v.valid(),
            Inst::LSFT(r, v) => *r <= MAX_REG && v.valid(),
            Inst::CALL(s) => labels.get(s).is_some(),
            Inst::RET => true,
            Inst::EQ(a, b) => a.valid() && b.valid(),
            Inst::LBL(_) => true,
            Inst::JMP(s) => labels.get(s).is_some(),
            Inst::TJMP(s) => labels.get(s).is_some(),
            Inst::FJMP(s) => labels.get(s).is_some(),
            Inst::PUSH(v) => v.valid(),
            Inst::POP(r) => *r <= MAX_REG,
            Inst::HLT => true,
            Inst::DISPNUM(r) => *r <= MAX_REG,
        }
    }
}

/// The map that a list of (name, address) entries stands for: entries are
/// taken in order, so a later entry for a name replaces an earlier one.
pub open spec fn entries_map(e: Seq<(String, usize)>) -> Map<Seq<char>, usize>
    decreases e.len(),
{
    if e.len() == 0 {
        Map::empty()
    } else {
        entries_map(e.drop_last()).insert(e.last().0@, e.last().1)
    }
}

/// If no entry from index `i` on names `k`, the entries before `i` alone
/// decide what the map holds at `k`.
proof fn lemma_entries_map_prefix(e: Seq<(String, usize)>, i: int, k: Seq<char>)
    requires
        0 <= i <= e.len(),
        forall|j: int| i <= j < e.len() ==> e[j].0@ != k,
    ensures
        entries_map(e).contains_key(k) == entries_map(e.take(i)).contains_key(k),
        entries_map(e).contains_key(k) ==> entries_map(e)[k] == entries_map(e.take(i))[k],
    decreases e.len(),
{
    if e.len() > i {
        lemma_entries_map_prefix(e.drop_last(), i, k);
        assert(e.drop_last().take(i) =~= e.take(i));
    } else {
        assert(e.take(i) =~= e);
    }
}

/// A table from label names to instruction addresses.
#[derive(Debug)]
pub struct LabelTable {
    entries: Vec<(String, usize)>,
}

impl View for LabelTable {
    type V = Map<Seq<char>, usize>;

    closed spec fn view(&self) -> Map<Seq<char>, usize> {
        entries_map(self.entries@)
    }
}

impl LabelTable {
    pub fn new() -> (r: LabelTable)
        ensures
            r@ == Map::<Seq<char>, usize>::empty(),
    {
        LabelTable { entries: Vec::new() }
    }

    /// Binds `name` to `addr`, replacing any earlier binding of `name`.
    pub fn insert(&mut self, name: String, addr: usize)
        ensures
            final(self)@ == old(self)@.insert(name@, addr),
    {
        let ghost e0 = self.entries@;
        self.entries.push((name, addr));
        assert(self.entries@.drop_last() =~= e0);
    }

    /// The address bound to `name`, if any.
    pub fn get(&self, name: &String) -> (r: Option<usize>)
        ensures
            r == (if self@.contains_key(name@) {
                Some(self@[name@])
            } else {
                None::<usize>
            }),
    {
        let mut i: usize = self.entries.len();
        while i > 0
            invariant
                i <= self.entries@.len(),
                forall|j: int| i <= j < self.entries@.len() ==> self.entries@[j].0@ != name@,
            decreases i,
        {
            if self.entries[i - 1].0 == *name {
                proof {
                    let e = self.entries@;
                    lemma_entries_map_prefix(e, i as int, name@);
                    assert(e.take(i as int).drop_last() =~= e.take(i - 1));
                }
                return Some(self.entries[i - 1].1);
            }
            i = i - 1;
        }
        proof {
            lemma_entries_map_prefix(self.entries@, 0, name@);
        }
        None
    }
}

/// The label table of a code sequence: scanning left to right, each
/// `LBL(name)` binds `name` to its own address, later ones replacing earlier.
pub open spec fn label_table(code: Seq<Inst>) -> Map<Seq<char>, usize>
    decreases code.len(),
{
    if code.len() == 0 {
        Map::empty()
    } else {
        let t = label_table(code.drop_last());
        match code.last() {
            Inst::LBL(s) => t.insert(s@, (code.len() - 1) as usize),
            _ => t,
        }
    }
}

/// Whether instruction `i` is `LBL(name)`.
pub open spec fn is_label_of(i: Inst, name: Seq<char>) -> bool {
    i is LBL && i->LBL_0@ == name
}

/// The table binds a name to the address of the last `LBL` of that name.
pub proof fn law_label_last_wins(code: Seq<Inst>, name: Seq<char>, i: int)
    requires
        0 <= i < code.len() <= usize::MAX,
        is_label_of(code[i], name),
        forall|j: int| i < j < code.len() ==> !is_label_of(#[trigger] code[j], name),
    ensures
        label_table(code).contains_key(name),
        label_table(code)[name] == i,
    decreases code.len(),
{
    if i < code.len() - 1 {
        let c = code.drop_last();
        assert forall|j: int| i < j < c.len() implies !is_label_of(#[trigger] c[j], name) by {
            assert(c[j] == code[j]);
        }
        law_label_last_wins(c, name, i);
        assert(!is_label_of(code[code.len() - 1], name));
    }
}

/// A name that labels no instruction is not in the table.
pub proof fn law_label_absent(code: Seq<Inst>, name: Seq<char>)
    requires
        forall|j: int| 0 <= j < code.len() ==> !is_label_of(#[trigger] code[j], name),
    ensures
        !label_table(code).contains_key(name),
    decreases code.len(),
{
    if code.len() > 0 {
        let c = code.drop_last();
        assert forall|j: int| 0 <= j < c.len() implies !is_label_of(#[trigger] c[j], name) by {
            assert(c[j] == code[j]);
        }
        law_label_absent(c, name);
        assert(!is_label_of(code[code.len() - 1], name));
    }
}

/// Building the label table depends on the instructions alone: two programs
/// built by `Program::new` from the same instructions have the same table,
/// so building it again from a built program's code changes nothing.
pub proof fn law_labels_determined(a: Program, b: Program)
    requires
        a.labels@ == label_table(a.code@),
        b.labels@ == label_table(b.code@),
        a.code@ == b.code@,
    ensures
        a.labels@ == b.labels@,
{
}

/// Instructions, addressed by their index, and the table of their labels.
#[derive(Debug)]
pub struct Program {
    pub code: Vec<Inst>,
    pub labels: LabelTable,
}

impl Program {
    /// Every instruction is well formed against the program's label table.
    pub open spec fn is_valid(&self) -> bool {
        forall|i: int| 0 <= i < self.code@.len() ==> #[trigger] self.code@[i].is_valid(self.labels@)
    }

    pub fn new(code: Vec<Inst>) -> (r: Program)
        ensures
            r.code@ == code@,
            r.labels@ == label_table(code@),
    {
        let mut labels = LabelTable::new();
        let mut i: usize = 0;
        while i < code.len()
            invariant
                i <= code@.len(),
                labels@ == label_table(code@.take(i as int)),
            decreases code@.len() - i,
        {
            assert(code@.take(i + 1).drop_last() =~= code@.take(i as int));
            match &code[i] {
                Inst::LBL(l) => {
                    labels.insert(l.clone(), i);
                },
                _ => {},
            }
            i = i + 1;
        }
        assert(code@.take(i as int) =~= code@);
        Program { code, labels }
    }

    pub fn valid(&self) -> (r: bool)
        ensures
            r == self.is_valid(),
            !r <==> exists|i: int| 0 <= i < self.code@.len() && !self.code@[i].is_valid(self.labels@),
    {
        let mut i: usize = 0;
        while i < self.code.len()
            invariant
                i <= self.code@.len(),
                forall|j: int| 0 <= j < i ==> #[trigger] self.code@[j].is_valid(self.labels@),
            decreases self.code@.len() - i,
        {
            if !self.code[i].valid(&self.labels) {
                return false;
            }
            i = i + 1;
        }
        true
    }
}

} // verus!
