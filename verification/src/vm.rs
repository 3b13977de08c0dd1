use vstd::prelude::*;

use crate::inst::Inst;
use crate::value::object::{heap_alloc, SlotModel};
use crate::value::{Heap, Object, Value};

verus! {

/// The mathematical model of a whole virtual-machine state.
pub ghost struct VmState {
    pub insts: Seq<Inst>,
    pub lp: nat,
    pub stack: Seq<Value>,
    pub consts: Seq<Value>,
    pub vars: Seq<Value>,
    pub heap: Seq<SlotModel>,
}

/// The ways a single instruction can fail at run time.
pub ghost enum VmErr {
    /// An arithmetic instruction found fewer than two operand-stack entries.
    NotEnoughArguments,
    /// A constant-pool index was out of range or did not address a
    /// well-formed length-prefixed byte run.
    BadConstantGet,
    /// `Var` found an empty operand stack.
    StackExhausted,
    /// `GetVar` or `EndVar` reached below the variable stack.
    VariableStackExhausted,
    /// A cell was read under an interpretation other than the one that wrote
    /// it; a guard against malformed or foreign bytecode.
    BadValueCell,
    /// `Div` or `Mod` with a zero divisor.
    DivisionByZero,
}

/// The diagnostic message carried by each runtime failure.
pub open spec fn err_msg(e: VmErr) -> Seq<char> {
    match e {
        VmErr::NotEnoughArguments => "not enough arguments"@,
        VmErr::BadConstantGet => "bad constant get"@,
        VmErr::StackExhausted => "stack exhausted"@,
        VmErr::VariableStackExhausted => "variable stack exhausted"@,
        VmErr::BadValueCell => "bad value cell"@,
        VmErr::DivisionByZero => "division by zero"@,
    }
}

/// The result of one arithmetic instruction on two integer cells, with
/// fixed-width wrapping semantics; `None` exactly for a zero divisor.
pub open spec fn apply_op(op: Inst, a: i32, b: i32) -> Option<i32> {
    match op {
        Inst::Add => Some(vstd::wrapping::i32_specs::wrapping_add(a, b)),
        Inst::Sub => Some(vstd::wrapping::i32_specs::wrapping_sub(a, b)),
        Inst::Mul => Some(vstd::wrapping::i32_specs::wrapping_mul(a, b)),
        Inst::Div => if b == 0 {
            None
        } else if a == i32::MIN && b == -1 {
            Some(i32::MIN)
        } else {
            a.checked_div(b)
        },
        Inst::Mod => if b == 0 {
            None
        } else if a == i32::MIN && b == -1 {
            Some(0)
        } else {
            a.checked_rem(b)
        },
        _ => None,
    }
}

/// How many 4-byte cells a packed run of `n` bytes occupies.
pub open spec fn cell_count(n: nat) -> nat {
    (n + 3) / 4
}

/// Byte `j` of a byte sequence, padding with zero past the end.
pub open spec fn packed_byte(bytes: Seq<u8>, j: int) -> u8 {
    if 0 <= j < bytes.len() {
        bytes[j]
    } else {
        0
    }
}

/// The constant-pool encoding of a byte run: a length cell followed by the
/// bytes packed four to a cell, zero-padded.
pub open spec fn pack_cells(bytes: Seq<u8>) -> Seq<Value> {
    seq![Value::Size(bytes.len() as usize)] + Seq::new(
        cell_count(bytes.len()) as nat,
        |c: int|
            Value::Bytes4(
                packed_byte(bytes, 4 * c),
                packed_byte(bytes, 4 * c + 1),
                packed_byte(bytes, 4 * c + 2),
                packed_byte(bytes, 4 * c + 3),
            ),
    )
}

/// One component of a packed cell (zero if the cell is of the wrong kind).
pub open spec fn cell_component(v: Value, k: int) -> u8 {
    match v {
        Value::Bytes4(b0, b1, b2, b3) => if k == 0 {
            b0
        } else if k == 1 {
            b1
        } else if k == 2 {
            b2
        } else {
            b3
        },
        _ => 0,
    }
}

/// Whether the cells after the length cell at `i` are all packed-byte cells.
pub open spec fn str_cells_ok(consts: Seq<Value>, i: nat, n: nat) -> bool {
    forall|c: int| i + 1 <= c < i + 1 + cell_count(n) ==> consts[c] is Bytes4
}

/// The byte run encoded at constant-pool index `i` with length `n`.
pub open spec fn unpacked_bytes(consts: Seq<Value>, i: nat, n: nat) -> Seq<u8> {
    Seq::new(n, |j: int| cell_component(consts[i + 1 + j / 4], j % 4))
}

/// The effect of the instruction at the current pointer on a machine state:
/// either the successor state, or the runtime failure that halts execution.
pub open spec fn step_spec(s: VmState) -> Result<VmState, VmErr>
    recommends
        s.lp < s.insts.len(),
{
    let inst = s.insts[s.lp as int];
    match inst {
        Inst::Nop => Ok(VmState { lp: s.lp + 1, ..s }),
        Inst::Add | Inst::Sub | Inst::Mul | Inst::Mod | Inst::Div => if s.stack.len() < 2 {
            Err(VmErr::NotEnoughArguments)
        } else {
            let av = s.stack[s.stack.len() - 2];
            let bv = s.stack[s.stack.len() - 1];
            match (av, bv) {
                (Value::Int(a), Value::Int(b)) => match apply_op(inst, a, b) {
                    Some(r) => Ok(
                        VmState {
                            lp: s.lp + 1,
                            stack: s.stack.drop_last().drop_last().push(Value::Int(r)),
                            ..s
                        },
                    ),
                    None => Err(VmErr::DivisionByZero),
                },
                _ => Err(VmErr::BadValueCell),
            }
        },
        Inst::GetConst(i) => if i < s.consts.len() {
            Ok(VmState { lp: s.lp + 1, stack: s.stack.push(s.consts[i as int]), ..s })
        } else {
            Err(VmErr::BadConstantGet)
        },
        Inst::GetStr(i) => if i >= s.consts.len() {
            Err(VmErr::BadConstantGet)
        } else {
            match s.consts[i as int] {
                Value::Size(n) => if cell_count(n as nat) > s.consts.len() - i - 1 {
                    Err(VmErr::BadConstantGet)
                } else if !str_cells_ok(s.consts, i as nat, n as nat) {
                    Err(VmErr::BadValueCell)
                } else {
                    Ok(
                        VmState {
                            lp: s.lp + 1,
                            stack: s.stack.push(Value::Obj(Object { index: s.heap.len() as usize })),
                            heap: heap_alloc(s.heap, unpacked_bytes(s.consts, i as nat, n as nat)),
                            ..s
                        },
                    )
                },
                _ => Err(VmErr::BadValueCell),
            }
        },
        Inst::Var => if s.stack.len() < 1 {
            Err(VmErr::StackExhausted)
        } else {
            Ok(
                VmState {
                    lp: s.lp + 1,
                    stack: s.stack.drop_last(),
                    vars: s.vars.push(s.stack.last()),
                    ..s
                },
            )
        },
        Inst::GetVar(d) => if (d as nat) < s.vars.len() {
            Ok(
                VmState {
                    lp: s.lp + 1,
                    stack: s.stack.push(s.vars[s.vars.len() - 1 - d]),
                    ..s
                },
            )
        } else {
            Err(VmErr::VariableStackExhausted)
        },
        Inst::EndVar => if s.vars.len() < 1 {
            Err(VmErr::VariableStackExhausted)
        } else {
            Ok(VmState { lp: s.lp + 1, vars: s.vars.drop_last(), ..s })
        },
    }
}

/// `n` consecutive steps from `s`, stopping at the first failure.
pub open spec fn steps_n(s: VmState, n: nat) -> Result<VmState, VmErr>
    decreases n,
{
    if n == 0 {
        Ok(s)
    } else {
        match step_spec(s) {
            Ok(s2) => steps_n(s2, (n - 1) as nat),
            Err(e) => Err(e),
        }
    }
}

/// Running to completion: step until the instruction pointer reaches the end
/// of the program, yielding the final operand stack, or halt at the first
/// runtime failure.
pub open spec fn run_spec(s: VmState) -> Result<Seq<Value>, VmErr>
    decreases s.insts.len() - s.lp,
{
    if s.lp >= s.insts.len() {
        Ok(s.stack)
    } else {
        match step_spec(s) {
            Ok(s2) => if s2.lp == s.lp + 1 && s2.insts == s.insts {
                run_spec(s2)
            } else {
                // never taken: a successful step advances the pointer by one
                // and leaves the program unchanged
                Ok(s2.stack)
            },
            Err(e) => Err(e),
        }
    }
}

/// A successful step advances the pointer by exactly one and changes neither
/// the program nor the constant pool.
pub proof fn lemma_step_shape(s: VmState)
    requires
        s.lp < s.insts.len(),
        step_spec(s) is Ok,
    ensures
        step_spec(s)->Ok_0.lp == s.lp + 1,
        step_spec(s)->Ok_0.insts == s.insts,
        step_spec(s)->Ok_0.consts == s.consts,
{
}

/// Chaining step counts: if the first `a` steps succeed, running `a + b`
/// steps is running `b` steps from the intermediate state.
pub proof fn lemma_steps_n_add(s: VmState, a: nat, b: nat)
    requires
        steps_n(s, a) is Ok,
    ensures
        steps_n(s, a + b) == steps_n(steps_n(s, a)->Ok_0, b),
    decreases a,
{
    if a > 0 {
        match step_spec(s) {
            Ok(s2) => {
                lemma_steps_n_add(s2, (a - 1) as nat, b);
            },
            Err(_) => {},
        }
    }
}

/// The stack-based virtual machine: a linear program, an instruction
/// pointer, an operand stack, a constant pool, a variable stack and the heap
/// backing object handles.
#[derive(Debug)]
pub struct VM {
    pub instructions: Vec<Inst>,
    pub lp: usize,
    pub stack: Vec<Value>,
    pub constants: Vec<Value>,
    pub variables: Vec<Value>,
    pub heap: Heap,
}

impl View for VM {
    type V = VmState;

    open spec fn view(&self) -> VmState {
        VmState {
            insts: self.instructions@,
            lp: self.lp as nat,
            stack: self.stack@,
            consts: self.constants@,
            vars: self.variables@,
            heap: self.heap@,
        }
    }
}

impl Default for VM {
    /// A machine with an empty program, empty stacks and an empty heap.
    fn default() -> (vm: VM)
        ensures
            vm@.insts =~= Seq::<Inst>::empty(),
            vm@.lp == 0,
            vm@.stack =~= Seq::<Value>::empty(),
            vm@.consts =~= Seq::<Value>::empty(),
            vm@.vars =~= Seq::<Value>::empty(),
            vm@.heap =~= Seq::<SlotModel>::empty(),
    {
        VM {
            instructions: Vec::new(),
            lp: 0,
            stack: Vec::new(),
            constants: Vec::new(),
            variables: Vec::new(),
            heap: Heap::new(),
        }
    }
}

impl VM {
    /// The instruction at the current instruction pointer.
    pub fn current_inst(&self) -> (inst: Inst)
        requires
            self@.lp < self@.insts.len(),
        ensures
            inst == self@.insts[self@.lp as int],
    {
        self.instructions[self.lp]
    }

    /// Append a cell to the constant pool and return its index.
    pub fn add_constant(&mut self, value: Value) -> (index: usize)
        ensures
            final(self)@ == (VmState { consts: old(self)@.consts.push(value), ..old(self)@ }),
            index as nat == old(self)@.consts.len(),
    {
        self.constants.push(value);
        assert(final(self)@ =~= (VmState { consts: old(self)@.consts.push(value), ..old(self)@ }));
        self.constants.len() - 1
    }

    /// Append an instruction to the program.
    pub fn emit(&mut self, inst: Inst)
        ensures
            final(self)@ == (VmState { insts: old(self)@.insts.push(inst), ..old(self)@ }),
    {
        self.instructions.push(inst);
        assert(final(self)@ =~= (VmState { insts: old(self)@.insts.push(inst), ..old(self)@ }));
    }

    /// Intern a constant cell and emit the instruction that loads it.
    pub fn emit_constant_load(&mut self, value: Value)
        ensures
            final(self)@ == (VmState {
                insts: old(self)@.insts.push(Inst::GetConst(old(self)@.consts.len() as usize)),
                consts: old(self)@.consts.push(value),
                ..old(self)@
            }),
    {
        let index = self.add_constant(value);
        self.emit(Inst::GetConst(index));
        assert(final(self)@ =~= (VmState {
            insts: old(self)@.insts.push(Inst::GetConst(old(self)@.consts.len() as usize)),
            consts: old(self)@.consts.push(value),
            ..old(self)@
        }));
    }

    /// Intern a byte run into the constant pool as a length cell followed by
    /// packed 4-byte cells, and emit the instruction that loads it as a heap
    /// object.
    #[verifier::loop_isolation(false)]
    pub fn emit_string_load(&mut self, bytes: Vec<u8>)
        requires
            bytes@.len() + 3 <= usize::MAX,
        ensures
            final(self)@ == (VmState {
                insts: old(self)@.insts.push(Inst::GetStr(old(self)@.consts.len() as usize)),
                consts: old(self)@.consts + pack_cells(bytes@),
                ..old(self)@
            }),
    {
        let n = bytes.len();
        let index = self.constants.len();
        self.constants.push(Value::Size(n));
        let k = n / 4 + if n % 4 == 0 {
            0
        } else {
            1
        };
        assert(k == cell_count(n as nat));
        let ghost tail = Seq::new(
            cell_count(n as nat) as nat,
            |c: int|
                Value::Bytes4(
                    packed_byte(bytes@, 4 * c),
                    packed_byte(bytes@, 4 * c + 1),
                    packed_byte(bytes@, 4 * c + 2),
                    packed_byte(bytes@, 4 * c + 3),
                ),
        );
        let mut c: usize = 0;
        while c < k
            invariant
                c <= k,
                self.constants@ =~= old(self)@.consts + seq![Value::Size(n)] + tail.take(c as int),
                self.lp == old(self)@.lp,
                self.instructions@ == old(self)@.insts,
                self.stack@ == old(self)@.stack,
                self.variables@ == old(self)@.vars,
                self.heap@ == old(self)@.heap,
            decreases k - c,
        {
            assert(4 * c + 3 < 4 * k);
            assert(4 * k <= n + 3);
            let base = 4 * c;
            let b0 = bytes[base];
            let b1 = if base + 1 < n {
                bytes[base + 1]
            } else {
                0
            };
            let b2 = if base + 2 < n {
                bytes[base + 2]
            } else {
                0
            };
            let b3 = if base + 3 < n {
                bytes[base + 3]
            } else {
                0
            };
            self.constants.push(Value::Bytes4(b0, b1, b2, b3));
            proof {
                assert(tail[c as int] == Value::Bytes4(b0, b1, b2, b3));
                assert(tail.take(c + 1) =~= tail.take(c as int).push(tail[c as int]));
            }
            c = c + 1;
        }
        proof {
            assert(tail.take(k as int) =~= tail);
            assert(self.constants@ =~= old(self)@.consts + pack_cells(bytes@));
        }
        self.instructions.push(Inst::GetStr(index));
        assert(self.instructions@ =~= old(self)@.insts.push(
            Inst::GetStr(old(self)@.consts.len() as usize),
        ));
        assert(final(self)@ == (VmState {
            insts: old(self)@.insts.push(Inst::GetStr(old(self)@.consts.len() as usize)),
            consts: old(self)@.consts + pack_cells(bytes@),
            ..old(self)@
        }));
    }

    /// Execute exactly the instruction at the current pointer and advance the
    /// pointer by one, or halt with the failure named by `step_spec`, leaving
    /// the machine unchanged.
    pub fn step(&mut self) -> (r: Result<(), &'static str>)
        requires
            old(self)@.lp < old(self)@.insts.len(),
        ensures
            (match step_spec(old(self)@) {
                Ok(s) => r is Ok && final(self)@ == s,
                Err(e) => (match r {
                    Err(m) => m@ == err_msg(e) && final(self)@ == old(self)@,
                    Ok(_) => false,
                }),
            }),
    {
        let inst = self.instructions[self.lp];
        match inst {
            Inst::Nop => {},
            Inst::Add | Inst::Sub | Inst::Mul | Inst::Mod | Inst::Div => {
                if self.stack.len() < 2 {
                    return Err("not enough arguments");
                }
                let n = self.stack.len();
                let av = self.stack[n - 2];
                let bv = self.stack[n - 1];
                let (a, b) = match (av, bv) {
                    (Value::Int(a), Value::Int(b)) => (a, b),
                    _ => {
                        return Err("bad value cell");
                    },
                };
                let result = match inst {
                    Inst::Add => a.wrapping_add(b),
                    Inst::Sub => a.wrapping_sub(b),
                    Inst::Mul => a.wrapping_mul(b),
                    Inst::Div => {
                        if b == 0 {
                            return Err("division by zero");
                        }
                        if a == i32::MIN && b == -1 {
                            i32::MIN
                        } else {
                            match a.checked_div(b) {
                                Some(q) => q,
                                None => {
                                    return Err("division by zero");
                                },
                            }
                        }
                    },
                    Inst::Mod => {
                        if b == 0 {
                            return Err("division by zero");
                        }
                        if a == i32::MIN && b == -1 {
                            0
                        } else {
                            match a.checked_rem(b) {
                                Some(q) => q,
                                None => {
                                    return Err("division by zero");
                                },
                            }
                        }
                    },
                    _ => unreached(),
                };
                self.stack.pop();
                self.stack.pop();
                self.stack.push(Value::Int(result));
            },
            Inst::GetConst(i) => {
                if i >= self.constants.len() {
                    return Err("bad constant get");
                }
                let v = self.constants[i];
                self.stack.push(v);
            },
            Inst::GetStr(i) => {
                if i >= self.constants.len() {
                    return Err("bad constant get");
                }
                let n = match self.constants[i] {
                    Value::Size(n) => n,
                    _ => {
                        return Err("bad value cell");
                    },
                };
                let k = n / 4 + if n % 4 == 0 {
                    0
                } else {
                    1
                };
                assert(k == cell_count(n as nat));
                if k > self.constants.len() - i - 1 {
                    return Err("bad constant get");
                }
                if !str_cells_ok_check(&self.constants, i, n) {
                    return Err("bad value cell");
                }
                let ghost target = unpacked_bytes(self@.consts, i as nat, n as nat);
                let mut data: Vec<u8> = Vec::new();
                let mut j: usize = 0;
                while j < n
                    invariant
                        j <= n,
                        self.constants@.len() <= usize::MAX,
                        i + 1 + cell_count(n as nat) <= self.constants@.len(),
                        str_cells_ok(self.constants@, i as nat, n as nat),
                        target == unpacked_bytes(self.constants@, i as nat, n as nat),
                        data@ =~= target.subrange(0, j as int),
                    decreases n - j,
                {
                    assert(j / 4 < cell_count(n as nat));
                    assert(self.constants@[i + 1 + j as int / 4] is Bytes4);
                    let cell = self.constants[i + 1 + j / 4];
                    let byte = match cell {
                        Value::Bytes4(b0, b1, b2, b3) => {
                            let m = j % 4;
                            if m == 0 {
                                b0
                            } else if m == 1 {
                                b1
                            } else if m == 2 {
                                b2
                            } else {
                                b3
                            }
                        },
                        _ => unreached(),
                    };
                    data.push(byte);
                    assert(data@ =~= target.subrange(0, j + 1));
                    j = j + 1;
                }
                assert(data@ =~= target);
                let o = Object::new(&mut self.heap, data);
                self.stack.push(Value::Obj(o));
            },
            Inst::Var => {
                match self.stack.pop() {
                    Some(v) => {
                        self.variables.push(v);
                    },
                    None => {
                        return Err("stack exhausted");
                    },
                }
            },
            Inst::GetVar(d) => {
                if d >= self.variables.len() {
                    return Err("variable stack exhausted");
                }
                let v = self.variables[self.variables.len() - 1 - d];
                self.stack.push(v);
            },
            Inst::EndVar => {
                match self.variables.pop() {
                    Some(_) => {},
                    None => {
                        return Err("variable stack exhausted");
                    },
                }
            },
        }
        proof {
            assert(self.instructions.len() <= usize::MAX);
        }
        self.lp = self.lp + 1;
        assert(step_spec(old(self)@) is Ok && final(self)@ == step_spec(old(self)@)->Ok_0);
        Ok(())
    }

    /// Step until the instruction pointer reaches the end of the program and
    /// return the final operand stack, or return the first runtime failure.
    #[verifier::loop_isolation(false)]
    pub fn run(self) -> (r: Result<Vec<Value>, String>)
        ensures
            (match run_spec(self@) {
                Ok(stack) => (match r {
                    Ok(values) => values@ == stack,
                    Err(_) => false,
                }),
                Err(e) => (match r {
                    Err(m) => m@ == err_msg(e),
                    Ok(_) => false,
                }),
            }),
    {
        let ghost s0 = self@;
        let mut vm = self;
        while vm.lp < vm.instructions.len()
            invariant
                run_spec(vm@) == run_spec(s0),
            decreases vm.instructions.len() - vm.lp,
        {
            match vm.step() {
                Ok(()) => {},
                Err(m) => {
                    return Err(m.to_owned());
                },
            }
        }
        Ok(vm.stack)
    }
}

/// Whether every packed cell of the byte run at `i` is of the `Bytes4` kind.
fn str_cells_ok_check(consts: &Vec<Value>, i: usize, n: usize) -> (r: bool)
    requires
        i < consts@.len(),
        i + 1 + cell_count(n as nat) <= consts@.len(),
    ensures
        r == str_cells_ok(consts@, i as nat, n as nat),
{
    let len = consts.len();
    let k = n / 4 + if n % 4 == 0 {
        0
    } else {
        1
    };
    assert(k == cell_count(n as nat));
    let mut c: usize = 0;
    while c < k
        invariant
            c <= k,
            k == cell_count(n as nat),
            len == consts@.len(),
            i + 1 + k <= len,
            forall|x: int| i + 1 <= x < i + 1 + c ==> consts@[x] is Bytes4,
        decreases k - c,
    {
        match consts[i + 1 + c] {
            Value::Bytes4(..) => {},
            _ => {
                assert(!str_cells_ok(consts@, i as nat, n as nat));
                return false;
            },
        }
        c = c + 1;
    }
    true
}

} // verus!
