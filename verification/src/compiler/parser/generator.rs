//! The bookkeeping of the bytecode generator: what a run of instructions does to the
//! value stack, the types the stack must provide, and the constants of a function.
use vstd::prelude::*;
use crate::compiler::parser::ast::Const;
use crate::compiler::parser::parse_structs::SyntaxError;
use crate::native_types::LeBlancType;

verus! {

/// One part of a dotted name and what it names.
#[derive(Debug)]
pub struct UnpackedIdent {
    pub string: String,
    pub ty: UIdentType,
}

#[derive(Clone, Copy, Debug, PartialEq, Eq, Structural)]
pub enum UIdentType {
    Object,
    Module,
    Attr,
    FuncOrVar,
}

/// The constants of the function being generated, each with its number.
#[derive(Debug)]
pub struct ConstantTrack {
    pub constants: Vec<(Const, usize)>,
}

/// What a run of instructions does to the value stack: how many instructions it has,
/// how far it moves the stack, its special count, the constants it uses with their
/// numbers, the types it still needs from the stack and those it leaves there, and the
/// errors found.
#[derive(Debug)]
pub struct StackCount {
    pub instruct_count: usize,
    pub stack_count: isize,
    pub special_count: isize,
    pub constants: Vec<(Const, usize)>,
    pub needed_types: Vec<LeBlancType>,
    pub provided_types: Vec<LeBlancType>,
    pub errors: Vec<SyntaxError>,
}

/// The position of the constant numbered `index`, if there is one.
pub open spec fn const_index(consts: Seq<(Const, usize)>, index: usize) -> Option<int>
    decreases consts.len(),
{
    if consts.len() == 0 {
        None
    } else if consts[0].1 == index {
        Some(0)
    } else {
        match const_index(consts.drop_first(), index) {
            Some(k) => Some(k + 1),
            None => None,
        }
    }
}

proof fn lemma_const_index(consts: Seq<(Const, usize)>, index: usize)
    ensures
        const_index(consts, index) matches Some(k) ==> 0 <= k < consts.len() && consts[k].1 == index && forall|j: int|
            0 <= j < k ==> consts[j].1 != index,
        const_index(consts, index) is None ==> forall|j: int| 0 <= j < consts.len() ==> consts[j].1 != index,
    decreases consts.len(),
{
    if consts.len() > 0 {
        lemma_const_index(consts.drop_first(), index);
        assert forall|j: int| 1 <= j < consts.len() implies consts[j] == consts.drop_first()[j - 1] by {}
    }
}

/// The state of the bookkeeping while values are taken off the stack: the types still
/// needed, the types provided, the number of errors, and the constants.
pub struct TakeState {
    pub needed: Seq<LeBlancType>,
    pub provided: Seq<LeBlancType>,
    pub errors: nat,
    pub consts: Seq<(Const, usize)>,
}

/// Takes one value off the stack. When a type is still needed, the last one needed is
/// matched against the type of the value: a still-open constant number takes the needed
/// type (a whole or floating-point constant is renumbered last with it); a value of
/// another type, or no value, is an error. `None` when an open constant has no entry.
pub open spec fn take_value(st: TakeState) -> Option<TakeState> {
    let provided = if st.provided.len() > 0 {
        st.provided.drop_last()
    } else {
        st.provided
    };
    if st.needed.len() == 0 {
        Some(TakeState { provided, ..st })
    } else {
        let need = st.needed.last();
        let needed = st.needed.drop_last();
        if st.provided.len() == 0 {
            Some(TakeState { needed, provided, errors: st.errors + 1, consts: st.consts })
        } else {
            match st.provided.last() {
                LeBlancType::ConstantFlex(arg) => match const_index(st.consts, arg as usize) {
                    None => None,
                    Some(k) => {
                        let rest = st.consts.remove(k);
                        match st.consts[k].0 {
                            Const::Whole(v, _, l) => Some(
                                TakeState {
                                    needed,
                                    provided,
                                    errors: st.errors,
                                    consts: rest.push((Const::Whole(v, Some(need), l), arg as usize)),
                                },
                            ),
                            Const::Float(v, _, l) => Some(
                                TakeState {
                                    needed,
                                    provided,
                                    errors: st.errors,
                                    consts: rest.push((Const::Float(v, Some(need), l), arg as usize)),
                                },
                            ),
                            _ => Some(TakeState { needed, provided, errors: st.errors, consts: st.consts }),
                        }
                    },
                },
                t => if t != need {
                    Some(TakeState { needed, provided, errors: st.errors + 1, consts: st.consts })
                } else {
                    Some(TakeState { needed, provided, errors: st.errors, consts: st.consts })
                },
            }
        }
    }
}

/// Takes `n` values off the stack.
pub open spec fn take_values(st: TakeState, n: nat) -> Option<TakeState>
    decreases n,
{
    if n == 0 {
        Some(st)
    } else {
        match take_value(st) {
            None => None,
            Some(s2) => take_values(s2, (n - 1) as nat),
        }
    }
}

/// How many values an instruction that moves the stack by `stack_count` takes off it: as
/// many as it moves it down, one when it leaves it as it is, none when it moves it up.
pub open spec fn popped(stack_count: isize) -> nat {
    if stack_count < 0 {
        (-stack_count) as nat
    } else if stack_count == 0 {
        1
    } else {
        0
    }
}

/// The bookkeeping before an instruction, as a value.
pub open spec fn take_start(s: StackCount, track: ConstantTrack) -> TakeState {
    TakeState {
        needed: s.needed_types@,
        provided: s.provided_types@,
        errors: s.errors@.len(),
        consts: track.constants@,
    }
}

impl StackCount {
    /// Nothing counted yet.
    pub fn new() -> (r: StackCount)
        ensures
            r.instruct_count == 0,
            r.stack_count == 0,
            r.special_count == 0,
            r.constants@ == Seq::<(Const, usize)>::empty(),
            r.needed_types@ == Seq::<LeBlancType>::empty(),
            r.provided_types@ == Seq::<LeBlancType>::empty(),
            r.errors@ == Seq::<SyntaxError>::empty(),
    {
        StackCount {
            instruct_count: 0,
            stack_count: 0,
            special_count: 0,
            constants: Vec::new(),
            needed_types: Vec::new(),
            provided_types: Vec::new(),
            errors: Vec::new(),
        }
    }

    /// Records that a value of type `lbt` must come off the stack.
    pub fn expect(&mut self, lbt: LeBlancType)
        ensures
            final(self).needed_types@ == old(self).needed_types@.push(lbt),
            final(self).provided_types@ == old(self).provided_types@,
            final(self).errors@ == old(self).errors@,
            final(self).constants@ == old(self).constants@,
            final(self).instruct_count == old(self).instruct_count,
            final(self).stack_count == old(self).stack_count,
            final(self).special_count == old(self).special_count,
    {
        self.needed_types.push(lbt);
    }

    /// Records that values of the types `lbt`, in order, must come off the stack.
    pub fn expects(&mut self, lbt: Vec<LeBlancType>)
        ensures
            final(self).needed_types@ == old(self).needed_types@ + lbt@,
            final(self).provided_types@ == old(self).provided_types@,
            final(self).errors@ == old(self).errors@,
            final(self).constants@ == old(self).constants@,
            final(self).instruct_count == old(self).instruct_count,
            final(self).stack_count == old(self).stack_count,
            final(self).special_count == old(self).special_count,
    {
        let mut lbt = lbt;
        self.needed_types.append(&mut lbt);
    }

    /// Counts the instruction `instruct`, which moves the stack by `stack_count` and
    /// leaves values of the types `pushed_types` on it: the values it takes off are
    /// checked against the types needed; when no error has been found, the instruction
    /// is added to `instructions`, the stack moves, and the pushed types are provided.
    pub fn macro_instruct<I>(
        self,
        instructions: &mut Vec<I>,
        instruct: I,
        stack_count: isize,
        pushed_types: Vec<LeBlancType>,
        track: &mut ConstantTrack,
    ) -> (r: Self)
        requires
            self.instruct_count < usize::MAX,
            stack_count > isize::MIN,
            take_values(take_start(self, *old(track)), popped(stack_count)) is Some,
            take_values(take_start(self, *old(track)), popped(stack_count)).unwrap().errors == 0 ==> self.stack_count
                + popped(stack_count) <= isize::MAX,
        ensures
            ({
                let x = take_values(take_start(self, *old(track)), popped(stack_count)).unwrap();
                &&& r.instruct_count == self.instruct_count + 1
                &&& r.special_count == self.special_count
                &&& r.constants@ == self.constants@
                &&& r.needed_types@ == x.needed
                &&& r.errors@.len() == x.errors
                &&& final(track).constants@ == x.consts
                &&& if x.errors > 0 {
                    &&& r.provided_types@ == x.provided
                    &&& r.stack_count == self.stack_count
                    &&& final(instructions)@ == old(instructions)@
                } else {
                    &&& r.provided_types@ == x.provided + pushed_types@
                    &&& r.stack_count == self.stack_count + popped(stack_count)
                    &&& final(instructions)@ == old(instructions)@.push(instruct)
                }
            }),
    {
        let mut s = self;
        let ghost start = take_start(s, *track);
        s.instruct_count = s.instruct_count + 1;
        let n: isize = if stack_count < 0 {
            -stack_count
        } else if stack_count == 0 {
            1
        } else {
            0
        };
        let ghost goal = take_values(start, popped(stack_count));
        let mut i: isize = 0;
        while i < n
            invariant
                0 <= i <= n,
                n == popped(stack_count),
                goal is Some,
                take_values(take_start(s, *track), (n - i) as nat) == goal,
                goal == take_values(take_start(self, *old(track)), popped(stack_count)),
                s.instruct_count == self.instruct_count + 1,
                s.special_count == self.special_count,
                s.stack_count == self.stack_count,
                s.constants@ == self.constants@,
                instructions@ == old(instructions)@,
            decreases n - i,
        {
            let ghost cur = take_start(s, *track);
            let t = s.provided_types.pop();
            if s.needed_types.len() > 0 {
                let needed_type = s.needed_types.pop().unwrap();
                match t {
                    Some(LeBlancType::ConstantFlex(arg)) => {
                        let index = arg as usize;
                        let k = find_constant(track, index);
                        proof {
                            lemma_const_index(cur.consts, index);
                        }
                        let k = k.unwrap();
                        let entry = track.constants.remove(k);
                        let (c, _) = entry;
                        match c {
                            Const::Whole(v, _, l) => {
                                track.constants.push((Const::Whole(v, Some(needed_type), l), index));
                            },
                            Const::Float(v, _, l) => {
                                track.constants.push((Const::Float(v, Some(needed_type), l), index));
                            },
                            other => {
                                track.constants.insert(k, (other, index));
                                assert(track.constants@ =~= cur.consts);
                            },
                        }
                    },
                    Some(t) => {
                        if t != needed_type {
                            s.errors.push(SyntaxError {  });
                        }
                    },
                    None => {
                        s.errors.push(SyntaxError {  });
                    },
                }
            }
            proof {
                assert(take_value(cur) == Some(take_start(s, *track)));
            }
            i = i + 1;
        }
        let ghost x = goal.unwrap();
        assert(take_start(s, *track) == x);
        if s.errors.len() > 0 {
            return s;
        }
        let mut pushed = pushed_types;
        s.provided_types.append(&mut pushed);
        s.stack_count = s.stack_count + n;
        instructions.push(instruct);
        s
    }
}

/// The position of the constant numbered `index` in the track.
fn find_constant(track: &ConstantTrack, index: usize) -> (r: Option<usize>)
    ensures
        r matches Some(k) ==> const_index(track.constants@, index) == Some(k as int),
        r is None ==> const_index(track.constants@, index) is None,
{
    proof {
        lemma_const_index(track.constants@, index);
    }
    let mut k: usize = 0;
    while k < track.constants.len()
        invariant
            k <= track.constants@.len(),
            forall|j: int| 0 <= j < k ==> track.constants@[j].1 != index,
            const_index(track.constants@, index) matches Some(m) ==> m >= k && m < track.constants@.len()
                && track.constants@[m].1 == index && forall|j: int| 0 <= j < m ==> track.constants@[j].1 != index,
            const_index(track.constants@, index) is None ==> forall|j: int|
                0 <= j < track.constants@.len() ==> track.constants@[j].1 != index,
        decreases track.constants.len() - k,
    {
        if track.constants[k].1 == index {
            return Some(k);
        }
        k = k + 1;
    }
    None
}

} // verus!
