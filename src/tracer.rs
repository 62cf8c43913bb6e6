//! The trace walker: rebuilds the instruction at every program counter that an
//! execution reached, numbers the instructions in emission order, and renders
//! the memory image for display.

use std::collections::HashMap;

use cairo_vm::types::instruction::{Instruction, Op1Addr};
use cairo_vm::vm::decoding::decoder::decode_instruction;
use vstd::prelude::*;

use crate::felt::{felt_hex, low_word, next_address, Felt};
use crate::vm::{decoded_of, has_immediate};

verus! {

broadcast use vstd::std_specs::hash::group_hash_axioms;

/// One step of an execution: program counter, allocation pointer, frame pointer.
#[derive(Clone, Copy, Debug, PartialEq, Eq)]
pub struct TraceEntry {
    pub pc: usize,
    pub ap: usize,
    pub fp: usize,
}

/// Why the walk over a trace failed.
#[derive(Clone, Copy, Debug, PartialEq, Eq)]
pub enum TraceError {
    /// A program counter that starts an instruction has no value in memory.
    UnmappedProgramCounter { pc: usize },
    /// The word at a program counter is no valid instruction.
    MalformedEncoding { pc: usize },
}

/// What the walk hands back: the instruction and its index at each program
/// counter that starts an instruction, the trace itself, and the memory in
/// display form.
pub struct TracerData {
    pub pc_inst_map: HashMap<usize, Instruction>,
    pub trace: Vec<TraceEntry>,
    pub memory: HashMap<usize, String>,
    pub pc_to_inst_indexes_map: HashMap<usize, usize>,
}

/// The largest program counter in the trace, 0 for an empty one.
pub open spec fn max_pc(trace: Seq<TraceEntry>) -> nat
    decreases trace.len(),
{
    if trace.len() == 0 {
        0
    } else {
        let rest = max_pc(trace.drop_last());
        if trace.last().pc as nat > rest {
            trace.last().pc as nat
        } else {
            rest
        }
    }
}

/// The value at address `a`, `None` for a hole or an address past the end.
pub open spec fn cell(memory: Seq<Option<Felt>>, a: int) -> Option<Felt> {
    if 0 <= a < memory.len() {
        memory[a]
    } else {
        None
    }
}

/// Where the walk stands after some addresses: whether the next address is
/// an immediate to skip, how many instructions were found, and the two maps.
pub struct WalkState {
    pub skip: bool,
    pub count: nat,
    pub insts: Map<usize, Instruction>,
    pub indexes: Map<usize, usize>,
}

pub open spec fn initial_walk_state() -> WalkState {
    WalkState { skip: false, count: 0, insts: Map::empty(), indexes: Map::empty() }
}

/// The walk's handling of address `pc`.
pub open spec fn walk_step(memory: Seq<Option<Felt>>, pc: nat, s: WalkState) -> Result<
    WalkState,
    TraceError,
> {
    if s.skip {
        Ok(WalkState { skip: false, count: s.count, insts: s.insts, indexes: s.indexes })
    } else {
        match cell(memory, pc as int) {
            None => Err(TraceError::UnmappedProgramCounter { pc: pc as usize }),
            Some(f) => match decoded_of(low_word(f) as u128) {
                None => Err(TraceError::MalformedEncoding { pc: pc as usize }),
                Some(inst) => Ok(
                    WalkState {
                        skip: has_immediate(inst),
                        count: s.count + 1,
                        insts: s.insts.insert(pc as usize, inst),
                        indexes: s.indexes.insert(pc as usize, s.count as usize),
                    },
                ),
            },
        }
    }
}

/// The walk over addresses `1..=n`, in increasing order, stopping at the
/// first failure.
pub open spec fn walk(memory: Seq<Option<Felt>>, n: nat) -> Result<WalkState, TraceError>
    decreases n,
{
    if n == 0 {
        Ok(initial_walk_state())
    } else {
        match walk(memory, (n - 1) as nat) {
            Err(e) => Err(e),
            Ok(s) => walk_step(memory, n, s),
        }
    }
}

/// `display` holds, at `a + 1`, the hexadecimal text of each value at an
/// address `a` of `memory`, and nothing else.
pub open spec fn is_memory_display(display: Map<usize, String>, memory: Seq<Option<Felt>>) -> bool {
    &&& forall|k: usize|
        #[trigger] display.contains_key(k) <==> (1 <= k <= memory.len() && memory[k - 1] is Some)
    &&& forall|k: usize|
        #[trigger] display.contains_key(k) ==> display[k]@ == felt_hex(
            memory[k - 1]->Some_0.bytes_le@,
        )
}

/// What `make_tracer_data` returns for `trace` and `memory`.
pub open spec fn tracer_outcome(
    trace: Seq<TraceEntry>,
    memory: Seq<Option<Felt>>,
    r: Result<TracerData, TraceError>,
) -> bool {
    match r {
        Ok(d) => walk(memory, max_pc(trace)) matches Ok(s) && {
            &&& d.pc_inst_map@ == s.insts
            &&& d.pc_to_inst_indexes_map@ == s.indexes
            &&& d.trace@ == trace
            &&& is_memory_display(d.memory@, memory)
        },
        Err(e) => walk(memory, max_pc(trace)) == Err::<WalkState, TraceError>(e),
    }
}

proof fn lemma_walk_error_persists(memory: Seq<Option<Felt>>, n: nat, m: nat, e: TraceError)
    requires
        n <= m,
        walk(memory, n) == Err::<WalkState, TraceError>(e),
    ensures
        walk(memory, m) == Err::<WalkState, TraceError>(e),
    decreases m - n,
{
    if n < m {
        lemma_walk_error_persists(memory, n, (m - 1) as nat, e);
    }
}

/// Some program counter of the state carries instruction index `v`.
pub open spec fn has_index(s: WalkState, v: int) -> bool {
    exists|k: usize| #[trigger] s.insts.contains_key(k) && s.indexes[k] == v
}

/// The last instruction found so far starts at `n`, or at `n - 1` when its
/// immediate sits at `n`; it carries the highest index.
pub open spec fn has_last(s: WalkState, n: nat) -> bool {
    exists|l: usize|
        #[trigger] s.insts.contains_key(l) && s.indexes[l] + 1 == s.count && (l == n || (l + 1 == n
            && has_immediate(s.insts[l])))
}

/// What holds of the walk's state after the addresses `1..=n`.
pub open spec fn walk_invariant(memory: Seq<Option<Felt>>, n: nat, s: WalkState) -> bool {
    &&& s.count <= n
    &&& forall|k: usize| #[trigger] s.insts.contains_key(k) <==> s.indexes.contains_key(k)
    &&& forall|k: usize| #[trigger]
        s.insts.contains_key(k) ==> {
            &&& 1 <= k <= n
            &&& cell(memory, k as int) is Some
            &&& s.indexes[k] < s.count
        }
    &&& s.skip <==> (n >= 1 && s.insts.contains_key(n as usize) && has_immediate(
        s.insts[n as usize],
    ))
    &&& forall|a: usize|
        1 <= a <= n ==> #[trigger] s.insts.contains_key(a) || (a >= 2 && s.insts.contains_key(
            (a - 1) as usize,
        ) && has_immediate(s.insts[(a - 1) as usize]))
    &&& forall|p: usize| #[trigger]
        s.insts.contains_key(p) && has_immediate(s.insts[p]) && p + 1 <= n
            ==> !s.insts.contains_key((p + 1) as usize)
    &&& forall|p: usize| #[trigger]
        s.insts.contains_key(p) && has_immediate(s.insts[p]) && p + 2 <= n ==> {
            &&& s.insts.contains_key((p + 2) as usize)
            &&& s.indexes[(p + 2) as usize] == s.indexes[p] + 1
        }
    &&& forall|k1: usize, k2: usize|
        #[trigger] s.insts.contains_key(k1) && #[trigger] s.insts.contains_key(k2) && k1 < k2
            ==> s.indexes[k1] < s.indexes[k2]
    &&& forall|v: int| 0 <= v < s.count ==> #[trigger] has_index(s, v)
    &&& s.count > 0 ==> has_last(s, n)
}

proof fn lemma_walk_invariant(memory: Seq<Option<Felt>>, n: nat)
    requires
        n <= usize::MAX,
        walk(memory, n) is Ok,
    ensures
        walk_invariant(memory, n, walk(memory, n)->Ok_0),
    decreases n,
{
    if n > 0 {
        let m = (n - 1) as nat;
        lemma_walk_invariant(memory, m);
        let s0 = walk(memory, m)->Ok_0;
        let s = walk(memory, n)->Ok_0;
        if s0.skip {
            assert(s.insts == s0.insts);
            assert forall|v: int| 0 <= v < s.count implies #[trigger] has_index(s, v) by {
                assert(has_index(s0, v));
            }
            if s.count > 0 {
                assert(has_last(s0, m));
                let l = choose|l: usize|
                    #[trigger] s0.insts.contains_key(l) && s0.indexes[l] + 1 == s0.count && (l == m
                        || (l + 1 == m && has_immediate(s0.insts[l])));
                if l + 1 == m {
                    assert(!s0.insts.contains_key((l + 1) as usize));
                }
                assert(has_last(s, n));
            }
        } else {
            let f = cell(memory, n as int)->Some_0;
            let inst = decoded_of(low_word(f) as u128)->Some_0;
            let nu = n as usize;
            assert(s.insts == s0.insts.insert(nu, inst));
            assert(s.indexes == s0.indexes.insert(nu, s0.count as usize));
            assert forall|v: int| 0 <= v < s.count implies #[trigger] has_index(s, v) by {
                if v < s0.count {
                    assert(has_index(s0, v));
                    let k = choose|k: usize| #[trigger] s0.insts.contains_key(k) && s0.indexes[k] == v;
                    assert(s.insts.contains_key(k) && s.indexes[k] == v);
                } else {
                    assert(s.insts.contains_key(nu) && s.indexes[nu] == v);
                }
            }
            assert(has_last(s, n)) by {
                assert(s.insts.contains_key(nu));
            }
            assert forall|p: usize| #[trigger]
                s.insts.contains_key(p) && has_immediate(s.insts[p]) && p + 2 <= n implies {
                    &&& s.insts.contains_key((p + 2) as usize)
                    &&& s.indexes[(p + 2) as usize] == s.indexes[p] + 1
                } by {
                if p + 2 == n {
                    assert(s0.insts.contains_key(p));
                    assert(!s0.insts.contains_key((p + 1) as usize));
                    assert(has_last(s0, m));
                    let l = choose|l: usize|
                        #[trigger] s0.insts.contains_key(l) && s0.indexes[l] + 1 == s0.count && (l
                            == m || (l + 1 == m && has_immediate(s0.insts[l])));
                    assert(l == p);
                }
            }
            assert forall|a: usize|
                1 <= a <= n implies #[trigger] s.insts.contains_key(a) || (a >= 2
                    && s.insts.contains_key((a - 1) as usize) && has_immediate(
                    s.insts[(a - 1) as usize],
                )) by {
                if a < n {
                    assert(s0.insts.contains_key(a) || (a >= 2 && s0.insts.contains_key(
                        (a - 1) as usize,
                    ) && has_immediate(s0.insts[(a - 1) as usize])));
                }
            }
        }
    }
}

/// The largest program counter in `trace`, 0 when it is empty.
pub fn max_trace_pc(trace: &Vec<TraceEntry>) -> (r: usize)
    ensures
        r as nat == max_pc(trace@),
{
    let mut m: usize = 0;
    let mut i: usize = 0;
    while i < trace.len()
        invariant
            i <= trace.len(),
            m as nat == max_pc(trace@.subrange(0, i as int)),
        decreases trace.len() - i,
    {
        assert(trace@.subrange(0, i + 1).drop_last() == trace@.subrange(0, i as int));
        if trace[i].pc > m {
            m = trace[i].pc;
        }
        i = i + 1;
    }
    assert(trace@.subrange(0, trace.len() as int) == trace@);
    m
}

/// The encoded instruction at `pc` and the value after it, if any: the
/// candidate immediate, read at `pc + 1` reduced modulo the field's prime.
pub fn get_instruction_encoding(pc: usize, memory: &[Option<Felt>]) -> (r: Result<
    (Felt, Option<Felt>),
    TraceError,
>)
    ensures
        match r {
            Ok((word, imm)) => {
                &&& cell(memory@, pc as int) == Some(word)
                &&& imm == cell(memory@, pc + 1)
            },
            Err(e) => {
                &&& cell(memory@, pc as int) is None
                &&& e == TraceError::UnmappedProgramCounter { pc }
            },
        },
{
    if pc >= memory.len() {
        return Err(TraceError::UnmappedProgramCounter { pc });
    }
    let instruction_encoding = match memory[pc] {
        Some(f) => f,
        None => {
            return Err(TraceError::UnmappedProgramCounter { pc });
        },
    };
    let optional_imm = match next_address(pc) {
        Some(a) => if a < memory.len() {
            memory[a]
        } else {
            None
        },
        None => None,
    };
    Ok((instruction_encoding, optional_imm))
}

/// The memory image in display form: each value, in hexadecimal, under its
/// address plus one.
pub fn memory_display_map(memory: &[Option<Felt>]) -> (r: HashMap<usize, String>)
    ensures
        is_memory_display(r@, memory@),
{
    let mut display: HashMap<usize, String> = HashMap::new();
    let mut i: usize = 0;
    while i < memory.len()
        invariant
            i <= memory.len(),
            forall|k: usize|
                #[trigger] display@.contains_key(k) <==> (1 <= k <= i && memory@[k - 1] is Some),
            forall|k: usize|
                #[trigger] display@.contains_key(k) ==> display@[k]@ == felt_hex(
                    memory@[k - 1]->Some_0.bytes_le@,
                ),
        decreases memory.len() - i,
    {
        if let Some(f) = memory[i] {
            let text = f.to_hex_string();
            display.insert(i + 1, text);
        }
        i = i + 1;
    }
    display
}

/// Walks the program counters `1..=max_pc` of the trace and builds the
/// instruction and index maps, beside the memory in display form. Fails on
/// the first address that starts an instruction and holds no value, or no
/// valid encoding.
pub fn make_tracer_data(trace: Vec<TraceEntry>, memory: Vec<Option<Felt>>) -> (r: Result<
    TracerData,
    TraceError,
>)
    ensures
        tracer_outcome(trace@, memory@, r),
{
    let max = max_trace_pc(&trace);
    let mut pc_inst_map: HashMap<usize, Instruction> = HashMap::new();
    let mut pc_to_inst_indexes_map: HashMap<usize, usize> = HashMap::new();
    let mut skip_next_pc = false;
    let mut casm_index: usize = 0;
    let mut n: usize = 0;
    while n < max
        invariant
            n <= max,
            max as nat == max_pc(trace@),
            casm_index <= n,
            walk(memory@, n as nat) == Ok::<WalkState, TraceError>(
                WalkState {
                    skip: skip_next_pc,
                    count: casm_index as nat,
                    insts: pc_inst_map@,
                    indexes: pc_to_inst_indexes_map@,
                },
            ),
        decreases max - n,
    {
        let pc = n + 1;
        if skip_next_pc {
            skip_next_pc = false;
        } else {
            let word = match get_instruction_encoding(pc, memory.as_slice()) {
                Ok((word, _)) => word,
                Err(e) => {
                    proof {
                        lemma_walk_error_persists(memory@, pc as nat, max as nat, e);
                    }
                    return Err(e);
                },
            };
            let encoding = word.low_u64();
            let instruction = match decode_instruction(encoding as u128) {
                Ok(inst) => inst,
                Err(_) => {
                    let e = TraceError::MalformedEncoding { pc };
                    proof {
                        lemma_walk_error_persists(memory@, pc as nat, max as nat, e);
                    }
                    return Err(e);
                },
            };
            skip_next_pc = match instruction.op1_addr {
                Op1Addr::Imm => true,
                _ => false,
            };
            pc_inst_map.insert(pc, instruction);
            pc_to_inst_indexes_map.insert(pc, casm_index);
            casm_index = casm_index + 1;
        }
        n = pc;
    }
    let memory_map = memory_display_map(memory.as_slice());
    Ok(
        TracerData {
            pc_inst_map,
            trace,
            memory: memory_map,
            pc_to_inst_indexes_map,
        },
    )
}

} // verus!

verus! {

/// Two walks over the same trace and memory agree: the same failure, or maps
/// with the same entries.
pub proof fn lemma_tracer_data_deterministic(
    trace: Seq<TraceEntry>,
    memory: Seq<Option<Felt>>,
    r1: Result<TracerData, TraceError>,
    r2: Result<TracerData, TraceError>,
)
    requires
        tracer_outcome(trace, memory, r1),
        tracer_outcome(trace, memory, r2),
    ensures
        r1 is Ok <==> r2 is Ok,
        r1 is Err ==> r1->Err_0 == r2->Err_0,
        r1 is Ok ==> {
            let d1 = r1->Ok_0;
            let d2 = r2->Ok_0;
            &&& d1.pc_inst_map@ == d2.pc_inst_map@
            &&& d1.pc_to_inst_indexes_map@ == d2.pc_to_inst_indexes_map@
            &&& d1.trace@ == d2.trace@
            &&& d1.memory@.dom() == d2.memory@.dom()
            &&& forall|k: usize| #[trigger]
                d1.memory@.contains_key(k) ==> d1.memory@[k]@ == d2.memory@[k]@
        },
{
    if r1 is Ok && r2 is Ok {
        let d1 = r1->Ok_0;
        let d2 = r2->Ok_0;
        assert(d1.memory@.dom() =~= d2.memory@.dom());
    }
}

/// Every program counter in the instruction map lies in `1..=max_pc`, the
/// index map has the same keys, and every address of that range either
/// starts an instruction or holds the immediate of the instruction before it.
pub proof fn lemma_tracer_data_coverage(
    trace: Seq<TraceEntry>,
    memory: Seq<Option<Felt>>,
    d: TracerData,
)
    requires
        tracer_outcome(trace, memory, Ok(d)),
    ensures
        forall|k: usize| #[trigger]
            d.pc_inst_map@.contains_key(k) ==> 1 <= k <= max_pc(trace),
        forall|k: usize| #[trigger]
            d.pc_inst_map@.contains_key(k) <==> d.pc_to_inst_indexes_map@.contains_key(k),
        forall|a: usize|
            1 <= a <= max_pc(trace) ==> #[trigger] d.pc_inst_map@.contains_key(a) || (a >= 2
                && d.pc_inst_map@.contains_key((a - 1) as usize) && has_immediate(
                d.pc_inst_map@[(a - 1) as usize],
            )),
{
    let n = max_pc(trace);
    lemma_max_pc_bound(trace);
    lemma_walk_invariant(memory, n);
}

/// The instruction indices, taken in the order of their program counters,
/// are `0, 1, 2, ...`: they grow strictly with the program counter, and
/// below each index every smaller one is taken.
pub proof fn lemma_tracer_data_index_sequence(
    trace: Seq<TraceEntry>,
    memory: Seq<Option<Felt>>,
    d: TracerData,
)
    requires
        tracer_outcome(trace, memory, Ok(d)),
    ensures
        forall|k1: usize, k2: usize|
            #[trigger] d.pc_to_inst_indexes_map@.contains_key(k1)
                && #[trigger] d.pc_to_inst_indexes_map@.contains_key(k2) && k1 < k2
                ==> d.pc_to_inst_indexes_map@[k1] < d.pc_to_inst_indexes_map@[k2],
        forall|k: usize| #[trigger]
            d.pc_to_inst_indexes_map@.contains_key(k) ==> forall|w: int|
                0 <= w < d.pc_to_inst_indexes_map@[k] ==> #[trigger] index_taken(
                    d.pc_to_inst_indexes_map@,
                    w,
                ),
{
    let n = max_pc(trace);
    lemma_max_pc_bound(trace);
    lemma_walk_invariant(memory, n);
    let s = walk(memory, n)->Ok_0;
    assert forall|k1: usize, k2: usize|
        #[trigger] d.pc_to_inst_indexes_map@.contains_key(k1)
            && #[trigger] d.pc_to_inst_indexes_map@.contains_key(k2) && k1 < k2 implies d.pc_to_inst_indexes_map@[k1]
        < d.pc_to_inst_indexes_map@[k2] by {
        assert(s.insts.contains_key(k1));
        assert(s.insts.contains_key(k2));
    }
    assert forall|k: usize, w: int|
        #[trigger] d.pc_to_inst_indexes_map@.contains_key(k) && 0 <= w
            < d.pc_to_inst_indexes_map@[k] implies #[trigger] index_taken(
        d.pc_to_inst_indexes_map@,
        w,
    ) by {
        assert(s.insts.contains_key(k));
        assert(has_index(s, w));
    }
}

/// Some program counter of `indexes` carries index `w`.
pub open spec fn index_taken(indexes: Map<usize, usize>, w: int) -> bool {
    exists|j: usize| #[trigger] indexes.contains_key(j) && indexes[j] == w
}

/// After an instruction with an immediate at `p`, no instruction starts at
/// `p + 1`, and where `p + 2` is in range the next one starts there, with
/// the next index.
pub proof fn lemma_tracer_data_immediate_skip(
    trace: Seq<TraceEntry>,
    memory: Seq<Option<Felt>>,
    d: TracerData,
    p: usize,
)
    requires
        tracer_outcome(trace, memory, Ok(d)),
        d.pc_inst_map@.contains_key(p),
        has_immediate(d.pc_inst_map@[p]),
    ensures
        p + 1 <= max_pc(trace) ==> !d.pc_inst_map@.contains_key((p + 1) as usize),
        p + 2 <= max_pc(trace) ==> {
            &&& d.pc_inst_map@.contains_key((p + 2) as usize)
            &&& d.pc_to_inst_indexes_map@[(p + 2) as usize] == d.pc_to_inst_indexes_map@[p] + 1
        },
{
    let n = max_pc(trace);
    lemma_max_pc_bound(trace);
    lemma_walk_invariant(memory, n);
}

/// An empty trace gives empty maps, and no failure, whatever the memory.
pub proof fn lemma_tracer_data_empty_trace(
    memory: Seq<Option<Felt>>,
    r: Result<TracerData, TraceError>,
)
    requires
        tracer_outcome(Seq::empty(), memory, r),
    ensures
        r is Ok,
        r->Ok_0.pc_inst_map@ == Map::<usize, Instruction>::empty(),
        r->Ok_0.pc_to_inst_indexes_map@ == Map::<usize, usize>::empty(),
{
}

/// An address in `1..=max_pc` that the walk reaches as the start of an
/// instruction, and that holds no value, fails the walk with
/// `UnmappedProgramCounter` at that address: no maps come back.
pub proof fn lemma_tracer_data_fails_on_gap(
    trace: Seq<TraceEntry>,
    memory: Seq<Option<Felt>>,
    r: Result<TracerData, TraceError>,
    a: usize,
)
    requires
        tracer_outcome(trace, memory, r),
        1 <= a <= max_pc(trace),
        walk(memory, (a - 1) as nat) matches Ok(s) && !s.skip,
        cell(memory, a as int) is None,
    ensures
        r == Err::<TracerData, TraceError>(TraceError::UnmappedProgramCounter { pc: a }),
{
    lemma_walk_error_persists(
        memory,
        a as nat,
        max_pc(trace),
        TraceError::UnmappedProgramCounter { pc: a },
    );
}

/// In a walk that succeeded, each address without a value holds the
/// immediate of the instruction before it.
pub proof fn lemma_tracer_data_holes_are_immediates(
    trace: Seq<TraceEntry>,
    memory: Seq<Option<Felt>>,
    d: TracerData,
    a: usize,
)
    requires
        tracer_outcome(trace, memory, Ok(d)),
        1 <= a <= max_pc(trace),
        cell(memory, a as int) is None,
    ensures
        !d.pc_inst_map@.contains_key(a),
        a >= 2,
        d.pc_inst_map@.contains_key((a - 1) as usize),
        has_immediate(d.pc_inst_map@[(a - 1) as usize]),
{
    let n = max_pc(trace);
    lemma_max_pc_bound(trace);
    lemma_walk_invariant(memory, n);
    let s = walk(memory, n)->Ok_0;
    assert(s.insts.contains_key(a) || (a >= 2 && s.insts.contains_key((a - 1) as usize)
        && has_immediate(s.insts[(a - 1) as usize])));
}

proof fn lemma_max_pc_bound(trace: Seq<TraceEntry>)
    ensures
        max_pc(trace) <= usize::MAX,
    decreases trace.len(),
{
    if trace.len() > 0 {
        lemma_max_pc_bound(trace.drop_last());
    }
}

} // verus!
