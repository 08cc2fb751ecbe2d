//! What instructions do: the part of the machine that the laws on values speak of.
//!
//! The ways out of a method are not described: the machine stops before them. What a called method
//! does is left open: the memory holds some answer to every call. A constructor without arguments
//! leaves its object as it is. What is printed is kept, value by value with the type that it is
//! printed as.

use vstd::prelude::*;

use crate::count::lemma_count_two;
use crate::instr::{InsnView, Instruction, JType};
use crate::labels::{placed, places, target};

verus! {

/// A value: a number or a reference. A truth value is the number 0 or 1.
pub enum Value {
    Int(i32),
    /// A reference to an object or an array, or to nothing.
    Ref(Option<int>),
    /// A reference to the string that a literal with these characters stands for. The machine keeps
    /// one such string for the same characters.
    Text(Seq<char>),
    /// A reference to the stream that values are printed to.
    Stream,
}

/// What a reference leads to.
pub enum Thing {
    /// An object with its class and its fields, each known by its class and its name.
    Object(Seq<char>, Map<(Seq<char>, Seq<char>), Value>),
    Array(Seq<Value>),
}

/// The result of a method, if it has one, and what references lead to and what was printed after
/// it. There is none where the method does not come back.
pub type Answer = Option<(Option<Value>, Map<int, Thing>, Seq<(JType, Value)>)>;

/// The local variables of a method, everything that references lead to, what was printed, and what
/// is known of the classes and their methods.
pub struct Memory {
    pub locals: Map<u8, Value>,
    pub heap: Map<int, Thing>,
    /// The values that were printed, each with the type that it was printed as.
    pub output: Seq<(JType, Value)>,
    /// The parent of each class.
    pub parents: Map<Seq<char>, Seq<char>>,
    /// The answer to a call: by the instruction that calls, the values that are passed, what
    /// references lead to and what was printed before.
    pub calls: spec_fn(InsnView, Seq<Value>, Map<int, Thing>, Seq<(JType, Value)>) -> Answer,
}

impl Memory {
    pub open spec fn set(self, x: u8, v: Value) -> Memory {
        Memory { locals: self.locals.insert(x, v), ..self }
    }

    pub open spec fn put(self, a: int, t: Thing) -> Memory {
        Memory { heap: self.heap.insert(a, t), ..self }
    }

    pub open spec fn print(self, t: JType, v: Value) -> Memory {
        Memory { output: self.output.push((t, v)), ..self }
    }

    /// What a call gives back, and the memory after it. The local variables are not touched.
    pub open spec fn call(self, i: InsnView, passed: Seq<Value>) -> Option<
        (Option<Value>, Memory),
    > {
        match (self.calls)(i, passed, self.heap, self.output) {
            Some((r, heap, output)) => Some((r, Memory { heap, output, ..self })),
            None => None,
        }
    }

    /// The local variable holds the value.
    pub open spec fn holds(self, x: u8, v: Value) -> bool {
        self.locals.dom().contains(x) && self.locals[x] == v
    }

    /// The local variable is as it is in the other memory.
    pub open spec fn same_local(self, other: Memory, x: u8) -> bool {
        &&& self.locals.dom().contains(x) == other.locals.dom().contains(x)
        &&& self.locals[x] == other.locals[x]
    }

    /// The array that a value refers to.
    pub open spec fn array(self, v: Value) -> Option<Seq<Value>> {
        match v {
            Value::Ref(Some(a)) => if self.heap.dom().contains(a) {
                match self.heap[a] {
                    Thing::Array(s) => Some(s),
                    _ => None,
                }
            } else {
                None
            },
            _ => None,
        }
    }

    /// The fields of the object that a value refers to.
    pub open spec fn object(self, v: Value) -> Option<Map<(Seq<char>, Seq<char>), Value>> {
        match v {
            Value::Ref(Some(a)) => if self.heap.dom().contains(a) {
                match self.heap[a] {
                    Thing::Object(_, f) => Some(f),
                    _ => None,
                }
            } else {
                None
            },
            _ => None,
        }
    }

    /// The class `n` steps above a class.
    pub open spec fn ancestor(self, class: Seq<char>, n: nat) -> Option<Seq<char>>
        decreases n,
    {
        if n == 0 {
            Some(class)
        } else {
            match self.ancestor(class, (n - 1) as nat) {
                Some(c) => if self.parents.dom().contains(c) {
                    Some(self.parents[c])
                } else {
                    None
                },
                None => None,
            }
        }
    }

    /// Whether a value refers to an object of the class or of one below it. Nothing is an instance
    /// of no class.
    pub open spec fn instance(self, v: Value, class: Seq<char>) -> Option<bool> {
        match v {
            Value::Ref(None) => Some(false),
            _ => if self.object(v) is Some {
                let own = self.heap[v->Ref_0->0]->Object_0;
                Some(exists|n: nat| #[trigger] self.ancestor(own, n) == Some(class))
            } else {
                None
            },
        }
    }

    /// The value can be cast to the class: it refers to nothing, or to an instance.
    pub open spec fn castable(self, v: Value, class: Seq<char>) -> bool {
        v == Value::Ref(None) || self.instance(v, class) == Some(true)
    }

    /// The element of an array at an index within its bounds.
    pub open spec fn element(self, v: Value, i: Value) -> Option<Value> {
        match (self.array(v), i) {
            (Some(s), Value::Int(i)) => if 0 <= i < s.len() {
                Some(s[i as int])
            } else {
                None
            },
            _ => None,
        }
    }

    /// The memory with a new element in an array, at an index within its bounds.
    pub open spec fn with_element(self, v: Value, i: Value, x: Value) -> Option<Memory> {
        match (self.array(v), i) {
            (Some(s), Value::Int(i)) => if 0 <= i < s.len() {
                Some(self.put(v->Ref_0->0, Thing::Array(s.update(i as int, x))))
            } else {
                None
            },
            _ => None,
        }
    }

    /// The value of a field.
    pub open spec fn field(self, v: Value, class: Seq<char>, name: Seq<char>) -> Option<Value> {
        match self.object(v) {
            Some(f) => if f.dom().contains((class, name)) {
                Some(f[(class, name)])
            } else {
                None
            },
            None => None,
        }
    }

    /// The memory with a new value of a field.
    pub open spec fn with_field(
        self,
        v: Value,
        class: Seq<char>,
        name: Seq<char>,
        x: Value,
    ) -> Option<Memory> {
        match self.object(v) {
            Some(f) => {
                let a = v->Ref_0->0;
                let own = self.heap[a]->Object_0;
                Some(self.put(a, Thing::Object(own, f.insert((class, name), x))))
            },
            None => None,
        }
    }

    /// A place in memory where nothing is yet.
    pub open spec fn unused(self) -> int {
        choose|a: int| !self.heap.dom().contains(a)
    }
}

/// Arithmetic keeps the lower 32 bits of the result.
pub open spec fn wrapped(x: int) -> i32 {
    x as i32
}

/// The number that a byte stands for when it is read with a sign.
pub open spec fn signed(b: u8) -> int {
    if b < 128 {
        b as int
    } else {
        b - 256
    }
}

/// The quotient of two numbers, rounded towards zero.
pub open spec fn quotient(a: int, b: int) -> int {
    if a >= 0 && b > 0 {
        a / b
    } else if a >= 0 {
        -(a / (-b))
    } else if b > 0 {
        -((-a) / b)
    } else {
        (-a) / (-b)
    }
}

/// What an instruction makes of two numbers.
pub open spec fn computed(i: InsnView, a: i32, b: i32) -> Option<i32> {
    match i {
        Instruction::IAdd => Some(wrapped(a + b)),
        Instruction::ISub => Some(wrapped(a - b)),
        Instruction::IMul => Some(wrapped(a * b)),
        Instruction::IDiv => if b == 0 {
            None
        } else {
            Some(wrapped(quotient(a as int, b as int)))
        },
        Instruction::IRem => if b == 0 {
            None
        } else {
            Some(wrapped(a - b * quotient(a as int, b as int)))
        },
        Instruction::IAnd => Some(a & b),
        Instruction::IOr => Some(a | b),
        Instruction::IXor => Some(a ^ b),
        Instruction::IShl => Some(a << (b & 31)),
        Instruction::IUShr => Some(((a as u32) >> ((b & 31) as u32)) as i32),
        _ => None,
    }
}

/// The value `k` places below the top of the stack.
pub open spec fn top(st: Seq<Value>, k: int) -> Value {
    st[st.len() - 1 - k]
}

/// The stack without its upper `k` values.
pub open spec fn under(st: Seq<Value>, k: int) -> Seq<Value> {
    st.take(st.len() - k)
}

pub broadcast proof fn lemma_under_one(st: Seq<Value>, a: Value)
    ensures
        #[trigger] under(st.push(a), 1) == st,
{
    assert(under(st.push(a), 1) =~= st);
}

pub broadcast proof fn lemma_under_two(st: Seq<Value>, a: Value, b: Value)
    ensures
        #[trigger] under(st.push(a).push(b), 2) == st,
{
    assert(under(st.push(a).push(b), 2) =~= st);
}

pub broadcast proof fn lemma_under_three(st: Seq<Value>, a: Value, b: Value, c: Value)
    ensures
        #[trigger] under(st.push(a).push(b).push(c), 3) == st,
{
    assert(under(st.push(a).push(b).push(c), 3) =~= st);
}

pub broadcast group group_stack {
    lemma_under_one,
    lemma_under_two,
    lemma_under_three,
}

/// A method can be called on the value: it refers to something that is not the stream.
pub open spec fn can_receive(v: Value) -> bool {
    v != Value::Ref(None) && !(v is Int) && !(v is Stream)
}

/// What a call with `k` values does: it replaces them by its result, if it has one.
pub open spec fn called(i: InsnView, k: int, void: bool, st: Seq<Value>, m: Memory) -> Option<
    (Seq<Value>, Memory),
> {
    if st.len() >= k {
        match m.call(i, st.skip(st.len() - k)) {
            Some((Some(v), m2)) => if void {
                None
            } else {
                Some((under(st, k).push(v), m2))
            },
            Some((None, m2)) => if void {
                Some((under(st, k), m2))
            } else {
                None
            },
            None => None,
        }
    } else {
        None
    }
}

/// What an instruction that never jumps does to the stack and the memory.
#[verifier::opaque]
pub open spec fn effect(i: InsnView, st: Seq<Value>, m: Memory) -> Option<(Seq<Value>, Memory)> {
    let n = st.len();
    match i {
        Instruction::ILoad(x) | Instruction::ALoad(x) => if m.locals.dom().contains(x) {
            Some((st.push(m.locals[x]), m))
        } else {
            None
        },
        Instruction::IStore(x) | Instruction::AStore(x) => if n >= 1 {
            Some((under(st, 1), m.set(x, top(st, 0))))
        } else {
            None
        },
        Instruction::IInc(x, b) => if m.locals.dom().contains(x) && m.locals[x] is Int {
            Some((st, m.set(x, Value::Int(wrapped(m.locals[x]->Int_0 + signed(b))))))
        } else {
            None
        },
        Instruction::IntConst(v) => Some((st.push(Value::Int(v)), m)),
        Instruction::BoolConst(v) => Some((st.push(truth(v)), m)),
        Instruction::AConstNull => Some((st.push(Value::Ref(None)), m)),
        Instruction::StringConst(v) => Some((st.push(Value::Text(v)), m)),
        Instruction::Dup => if n >= 1 {
            Some((st.push(top(st, 0)), m))
        } else {
            None
        },
        Instruction::DupX1 => if n >= 2 {
            Some((under(st, 2).push(top(st, 0)).push(top(st, 1)).push(top(st, 0)), m))
        } else {
            None
        },
        Instruction::DupX2 => if n >= 3 {
            Some(
                (
                    under(st, 3).push(top(st, 0)).push(top(st, 2)).push(top(st, 1)).push(
                        top(st, 0),
                    ),
                    m,
                ),
            )
        } else {
            None
        },
        Instruction::Dup2 => if n >= 2 {
            Some((st.push(top(st, 1)).push(top(st, 0)), m))
        } else {
            None
        },
        Instruction::Pop => if n >= 1 {
            Some((under(st, 1), m))
        } else {
            None
        },
        Instruction::Swap => if n >= 2 {
            Some((under(st, 2).push(top(st, 0)).push(top(st, 1)), m))
        } else {
            None
        },
        Instruction::IAdd
        | Instruction::ISub
        | Instruction::IMul
        | Instruction::IDiv
        | Instruction::IRem
        | Instruction::IAnd
        | Instruction::IOr
        | Instruction::IXor
        | Instruction::IShl
        | Instruction::IUShr => if n >= 2 && top(st, 1) is Int && top(st, 0) is Int {
            match computed(i, top(st, 1)->Int_0, top(st, 0)->Int_0) {
                Some(v) => Some((under(st, 2).push(Value::Int(v)), m)),
                None => None,
            }
        } else {
            None
        },
        Instruction::INeg => if n >= 1 && top(st, 0) is Int {
            Some((under(st, 1).push(Value::Int(wrapped(-top(st, 0)->Int_0))), m))
        } else {
            None
        },
        Instruction::IALoad | Instruction::BALoad | Instruction::AALoad => if n >= 2 {
            match m.element(top(st, 1), top(st, 0)) {
                Some(v) => Some((under(st, 2).push(v), m)),
                None => None,
            }
        } else {
            None
        },
        Instruction::IAStore | Instruction::BAStore | Instruction::AAStore => if n >= 3 {
            match m.with_element(top(st, 2), top(st, 1), top(st, 0)) {
                Some(m2) => Some((under(st, 3), m2)),
                None => None,
            }
        } else {
            None
        },
        Instruction::ArrayLength => if n >= 1 {
            match m.array(top(st, 0)) {
                Some(s) => Some((under(st, 1).push(Value::Int(wrapped(s.len() as int))), m)),
                None => None,
            }
        } else {
            None
        },
        Instruction::NewIntArray
        | Instruction::NewBoolArray
        | Instruction::ANewArray(_) => if n >= 1 && top(st, 0) is Int && top(st, 0)->Int_0 >= 0 {
            let zero = if i is ANewArray {
                Value::Ref(None)
            } else {
                Value::Int(0)
            };
            let a = m.unused();
            Some(
                (
                    under(st, 1).push(Value::Ref(Some(a))),
                    m.put(a, Thing::Array(Seq::new(top(st, 0)->Int_0 as nat, |k: int| zero))),
                ),
            )
        } else {
            None
        },
        Instruction::New(class) => Some(
            (
                st.push(Value::Ref(Some(m.unused()))),
                m.put(m.unused(), Thing::Object(class, Map::empty())),
            ),
        ),
        Instruction::CheckCast(class) => if n >= 1 && m.castable(top(st, 0), class) {
            Some((st, m))
        } else {
            None
        },
        Instruction::InstanceOf(class) => if n >= 1 {
            match m.instance(top(st, 0), class) {
                Some(b) => Some((under(st, 1).push(truth(b)), m)),
                None => None,
            }
        } else {
            None
        },
        Instruction::GetStatic { class, name, .. } => if class == "java/lang/System"@ && name
            == "out"@ {
            Some((st.push(Value::Stream), m))
        } else {
            None
        },
        Instruction::InvokeVirtual { class, name, args, ret } => if n >= 2 && class
            == "java/io/PrintStream"@ && name == "print"@ && args.len() == 1 && ret is Void
            && top(st, 1) is Stream {
            Some((under(st, 2), m.print(args[0], top(st, 0))))
        } else if n > args.len() && can_receive(top(st, args.len() as int)) {
            called(i, args.len() as int + 1, ret is Void, st, m)
        } else {
            None
        },
        Instruction::InvokeStatic { args, ret, .. } => called(
            i,
            args.len() as int,
            ret is Void,
            st,
            m,
        ),
        Instruction::InvokeSpecial { name, args, ret, .. } => if n >= 1 && name == "<init>"@
            && args.len() == 0 && ret is Void && m.object(top(st, 0)) is Some {
            Some((under(st, 1), m))
        } else {
            None
        },
        Instruction::GetField { class, name, .. } => if n >= 1 {
            match m.field(top(st, 0), class, name) {
                Some(v) => Some((under(st, 1).push(v), m)),
                None => None,
            }
        } else {
            None
        },
        Instruction::PutField { class, name, .. } => if n >= 2 {
            match m.with_field(top(st, 1), class, name, top(st, 0)) {
                Some(m2) => Some((under(st, 2), m2)),
                None => None,
            }
        } else {
            None
        },
        Instruction::Label(_) => Some((st, m)),
        _ => None,
    }
}

/// A truth value.
pub open spec fn truth(b: bool) -> Value {
    if b {
        Value::Int(1)
    } else {
        Value::Int(0)
    }
}

/// How many values a jump looks at, and whether it is taken.
pub open spec fn taken(i: InsnView, st: Seq<Value>) -> Option<(int, bool)> {
    let n = st.len();
    match i {
        Instruction::Goto(_) => Some((0, true)),
        Instruction::IfEq(_) => if n >= 1 && top(st, 0) is Int {
            Some((1, top(st, 0)->Int_0 == 0))
        } else {
            None
        },
        Instruction::IfNe(_) => if n >= 1 && top(st, 0) is Int {
            Some((1, top(st, 0)->Int_0 != 0))
        } else {
            None
        },
        Instruction::IfLt(_) => if n >= 1 && top(st, 0) is Int {
            Some((1, top(st, 0)->Int_0 < 0))
        } else {
            None
        },
        Instruction::IfACmpEq(_) => if n >= 2 && !(top(st, 1) is Int) && !(top(st, 0) is Int) {
            Some((2, top(st, 1) == top(st, 0)))
        } else {
            None
        },
        Instruction::IfACmpNe(_) => if n >= 2 && !(top(st, 1) is Int) && !(top(st, 0) is Int) {
            Some((2, top(st, 1) != top(st, 0)))
        } else {
            None
        },
        _ => if n >= 2 && top(st, 1) is Int && top(st, 0) is Int {
            let (a, b) = (top(st, 1)->Int_0, top(st, 0)->Int_0);
            match i {
                Instruction::IfICmpEq(_) => Some((2, a == b)),
                Instruction::IfICmpNe(_) => Some((2, a != b)),
                Instruction::IfICmpLt(_) => Some((2, a < b)),
                Instruction::IfICmpGe(_) => Some((2, a >= b)),
                Instruction::IfICmpGt(_) => Some((2, a > b)),
                Instruction::IfICmpLe(_) => Some((2, a <= b)),
                _ => None,
            }
        } else {
            None
        },
    }
}

/// Where the machine stands in a method.
pub struct State {
    /// The position of the next instruction.
    pub pc: int,
    pub stack: Seq<Value>,
    pub mem: Memory,
}

/// The instruction is the label.
pub open spec fn marks(i: InsnView, l: u16) -> bool {
    i is Label && i->Label_0 == l
}

/// The place of a label in the code.
pub open spec fn place(code: Seq<InsnView>, l: u16) -> int {
    choose|i: int| 0 <= i < code.len() && marks(#[trigger] code[i], l)
}

/// What the machine does next.
pub open spec fn step(code: Seq<InsnView>, s: State) -> Option<State> {
    if 0 <= s.pc < code.len() {
        let i = code[s.pc];
        match target(i) {
            Some(l) => match taken(i, s.stack) {
                Some((k, yes)) => Some(
                    State {
                        pc: if yes {
                            place(code, l)
                        } else {
                            s.pc + 1
                        },
                        stack: under(s.stack, k),
                        mem: s.mem,
                    },
                ),
                None => None,
            },
            None => match effect(i, s.stack, s.mem) {
                Some((stack, mem)) => Some(State { pc: s.pc + 1, stack, mem }),
                None => None,
            },
        }
    } else {
        None
    }
}

/// The state after `n` steps.
pub open spec fn run(code: Seq<InsnView>, s: State, n: nat) -> Option<State>
    decreases n,
{
    if n == 0 {
        Some(s)
    } else {
        match run(code, s, (n - 1) as nat) {
            Some(t) => step(code, t),
            None => None,
        }
    }
}

/// The machine comes from `s` to `t`.
#[verifier::opaque]
pub open spec fn leads(code: Seq<InsnView>, s: State, t: State) -> bool {
    exists|n: nat| #[trigger] run(code, s, n) == Some(t)
}

pub proof fn lemma_leads_self(code: Seq<InsnView>, s: State)
    ensures
        leads(code, s, s),
{
    reveal(leads);
    assert(run(code, s, 0) == Some(s));
}

pub proof fn lemma_leads_step(code: Seq<InsnView>, s: State, t: State, u: State)
    requires
        leads(code, s, t),
        step(code, t) == Some(u),
    ensures
        leads(code, s, u),
{
    reveal(leads);
    let n = choose|n: nat| #[trigger] run(code, s, n) == Some(t);
    assert(run(code, s, n + 1) == Some(u));
}

proof fn lemma_run_add(code: Seq<InsnView>, s: State, t: State, a: nat, b: nat)
    requires
        run(code, s, a) == Some(t),
    ensures
        run(code, s, a + b) == run(code, t, b),
    decreases b,
{
    if b > 0 {
        lemma_run_add(code, s, t, a, (b - 1) as nat);
    }
}

pub proof fn lemma_leads_trans(code: Seq<InsnView>, s: State, t: State, u: State)
    requires
        leads(code, s, t),
        leads(code, t, u),
    ensures
        leads(code, s, u),
{
    reveal(leads);
    let a = choose|n: nat| #[trigger] run(code, s, n) == Some(t);
    let b = choose|n: nat| #[trigger] run(code, t, n) == Some(u);
    lemma_run_add(code, s, t, a, b);
    assert(run(code, s, a + b) == Some(u));
}

// ---------------------------------------------------------------------------------------------
// Code in its place
// ---------------------------------------------------------------------------------------------

/// The code of a method holds `part` at position `off`.
pub open spec fn located(code: Seq<InsnView>, off: int, part: Seq<InsnView>) -> bool {
    &&& 0 <= off
    &&& off + part.len() <= code.len()
    &&& forall|i: int| 0 <= i < part.len() ==> #[trigger] part[i] == code[off + i]
}

/// No label is placed twice.
pub open spec fn lone(code: Seq<InsnView>) -> bool {
    forall|l: u16| #[trigger] placed(code, l) <= 1
}

pub proof fn lemma_located_add(
    code: Seq<InsnView>,
    off: int,
    a: Seq<InsnView>,
    b: Seq<InsnView>,
)
    requires
        located(code, off, a + b),
    ensures
        located(code, off, a),
        located(code, off + a.len(), b),
{
    assert forall|i: int| 0 <= i < a.len() implies #[trigger] a[i] == code[off + i] by {
        assert((a + b)[i] == a[i]);
    }
    assert forall|i: int| 0 <= i < b.len() implies #[trigger] b[i] == code[off + a.len() + i] by {
        assert((a + b)[a.len() + i] == b[i]);
    }
}

pub proof fn lemma_located_push(code: Seq<InsnView>, off: int, a: Seq<InsnView>, i: InsnView)
    requires
        located(code, off, a.push(i)),
    ensures
        located(code, off, a),
        off + a.len() < code.len(),
        code[off + a.len()] == i,
{
    assert forall|k: int| 0 <= k < a.len() implies #[trigger] a[k] == code[off + k] by {
        assert(a.push(i)[k] == a[k]);
    }
    assert(a.push(i)[a.len() as int] == i);
}

/// A label that is placed once has one place.
pub proof fn lemma_place(code: Seq<InsnView>, l: u16, i: int)
    requires
        lone(code),
        0 <= i < code.len(),
        marks(code[i], l),
    ensures
        place(code, l) == i,
{
    let k = place(code, l);
    assert(0 <= k < code.len() && marks(code[k], l));
    if k != i {
        assert(placed(code, l) <= 1);
        lemma_count_two(code, places(l), k, i);
    }
}

} // verus!
