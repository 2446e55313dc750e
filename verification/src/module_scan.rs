//! Which SPIR-V modules rspirv-reflect can reflect without panicking.
//!
//! The parser reads the module as little-endian words: a five-word header, then
//! instructions whose first word holds the word count (high half) and the opcode
//! (low half). Reflection then looks at the module's descriptor variables (global
//! `OpVariable`s in the `Uniform`, `UniformConstant` or `StorageBuffer` storage
//! class), their `DescriptorSet`/`Binding` decorations, and the types they point
//! to. `reflectable` names the modules on which neither step panics nor recurses
//! forever.
use vstd::prelude::*;

use crate::spirv::{word_at, words_of};

verus! {

/// The first word of every SPIR-V module.
pub const SPIRV_MAGIC: u32 = 0x0723_0203;

/// SPIR-V opcodes the scan looks at.
pub const OP_UNDEF: u32 = 1;

pub const OP_TYPE_SAMPLED_IMAGE: u32 = 27;

pub const OP_TYPE_RUNTIME_ARRAY: u32 = 29;

pub const OP_TYPE_STRUCT: u32 = 30;

pub const OP_TYPE_POINTER: u32 = 32;

pub const OP_CONSTANT: u32 = 43;

pub const OP_SPEC_CONSTANT: u32 = 50;

pub const OP_SPEC_CONSTANT_OP: u32 = 52;

pub const OP_FUNCTION: u32 = 54;

pub const OP_FUNCTION_END: u32 = 56;

pub const OP_VARIABLE: u32 = 59;

pub const OP_DECORATE: u32 = 71;

pub const OP_MEMBER_DECORATE: u32 = 72;

pub const OP_DECORATION_GROUP: u32 = 73;

pub const OP_TYPE_RAY_QUERY_PROVISIONAL_KHR: u32 = 4472;

pub const OP_TYPE_ACCELERATION_STRUCTURE_KHR: u32 = 5341;

pub const OP_DECORATE_STRING: u32 = 5632;

pub const OP_MEMBER_DECORATE_STRING: u32 = 5633;

/// SPIR-V decorations and storage classes the scan looks at.
pub const DECORATION_BLOCK: u32 = 2;

pub const DECORATION_BUFFER_BLOCK: u32 = 3;

pub const DECORATION_BINDING: u32 = 33;

pub const DECORATION_DESCRIPTOR_SET: u32 = 34;

pub const STORAGE_CLASS_UNIFORM_CONSTANT: u32 = 0;

pub const STORAGE_CLASS_UNIFORM: u32 = 2;

pub const STORAGE_CLASS_STORAGE_BUFFER: u32 = 12;

/// The word count held in an instruction's first word.
pub open spec fn word_count_of(word: u32) -> int {
    (word / 0x10000) as int
}

/// The opcode held in an instruction's first word.
pub open spec fn opcode_of(word: u32) -> u32 {
    word % 0x10000
}

/// Where the instructions of `w` begin, from word `p` on, as the parser walks
/// them. The walk ends at the end of the words, or with an instruction whose word
/// count is zero or runs past the end (the parser fails there).
pub open spec fn instruction_starts(w: Seq<u32>, p: int) -> Seq<int>
    decreases w.len() - p,
{
    if p < 0 || p >= w.len() {
        Seq::empty()
    } else if word_count_of(w[p]) == 0 || p + word_count_of(w[p]) > w.len() {
        seq![p]
    } else {
        seq![p] + instruction_starts(w, p + word_count_of(w[p]))
    }
}

/// The words from `p` on split exactly into instructions.
pub open spec fn splits_cleanly(w: Seq<u32>, p: int) -> bool
    decreases w.len() - p,
{
    if p < 0 || p > w.len() {
        false
    } else if p == w.len() {
        true
    } else if word_count_of(w[p]) == 0 || p + word_count_of(w[p]) > w.len() {
        false
    } else {
        splits_cleanly(w, p + word_count_of(w[p]))
    }
}

/// Opcode, word count and words of instruction `k`.
pub open spec fn op_at(w: Seq<u32>, st: Seq<int>, k: int) -> u32 {
    opcode_of(w[st[k]])
}

pub open spec fn wc_at(w: Seq<u32>, st: Seq<int>, k: int) -> int {
    word_count_of(w[st[k]])
}

pub open spec fn arg_at(w: Seq<u32>, st: Seq<int>, k: int, j: int) -> u32 {
    w[st[k] + j]
}

/// Instruction `k` stands inside a function: the last `OpFunction` or
/// `OpFunctionEnd` before it is an `OpFunction`.
pub open spec fn in_function_before(w: Seq<u32>, st: Seq<int>, k: int) -> bool
    decreases k,
{
    if k <= 0 {
        false
    } else if op_at(w, st, k - 1) == OP_FUNCTION {
        true
    } else if op_at(w, st, k - 1) == OP_FUNCTION_END {
        false
    } else {
        in_function_before(w, st, k - 1)
    }
}

/// The result id of instruction `k` where the loader files it among the module's
/// types and global values (a type other than a forward pointer, a constant, or
/// an `OpVariable`/`OpUndef` outside functions); `None` otherwise.
pub open spec fn global_result_id(w: Seq<u32>, st: Seq<int>, k: int) -> Option<u32> {
    let o = op_at(w, st, k);
    if (19 <= o <= 38 || o == OP_TYPE_RAY_QUERY_PROVISIONAL_KHR || o
        == OP_TYPE_ACCELERATION_STRUCTURE_KHR) && wc_at(w, st, k) >= 2 {
        Some(arg_at(w, st, k, 1))
    } else if (41 <= o <= 46 || 48 <= o <= 52) && wc_at(w, st, k) >= 3 {
        Some(arg_at(w, st, k, 2))
    } else if (o == OP_UNDEF || o == OP_VARIABLE) && !in_function_before(w, st, k) && wc_at(
        w,
        st,
        k,
    ) >= 3 {
        Some(arg_at(w, st, k, 2))
    } else {
        None
    }
}

/// The first instruction, from `k` on, that defines `t` among the types and
/// global values.
pub open spec fn first_definition_from(w: Seq<u32>, st: Seq<int>, t: u32, k: int) -> Option<int>
    decreases st.len() - k,
{
    if k < 0 || k >= st.len() {
        None
    } else if global_result_id(w, st, k) == Some(t) {
        Some(k)
    } else {
        first_definition_from(w, st, t, k + 1)
    }
}

/// Instruction `k` gives `target` decoration `deco` with a literal argument
/// (`OpDecorate` or `OpDecorateString`).
pub open spec fn decorates(w: Seq<u32>, st: Seq<int>, k: int, target: u32, deco: u32) -> bool {
    &&& (op_at(w, st, k) == OP_DECORATE || op_at(w, st, k) == OP_DECORATE_STRING)
    &&& wc_at(w, st, k) >= 4
    &&& arg_at(w, st, k, 1) == target
    &&& arg_at(w, st, k, 2) == deco
}

/// The first instruction, from `k` on, that gives `target` decoration `deco`.
pub open spec fn first_decoration_from(
    w: Seq<u32>,
    st: Seq<int>,
    target: u32,
    deco: u32,
    k: int,
) -> Option<int>
    decreases st.len() - k,
{
    if k < 0 || k >= st.len() {
        None
    } else if decorates(w, st, k, target, deco) {
        Some(k)
    } else {
        first_decoration_from(w, st, target, deco, k + 1)
    }
}

/// No two instructions give `target` decoration `deco`.
pub open spec fn decorated_at_most_once(w: Seq<u32>, st: Seq<int>, target: u32, deco: u32) -> bool {
    match first_decoration_from(w, st, target, deco, 0) {
        None => true,
        Some(k) => first_decoration_from(w, st, target, deco, k + 1) is None,
    }
}

/// Instruction `k` is an annotation of `target` that names decoration `deco`.
pub open spec fn annotates(w: Seq<u32>, st: Seq<int>, k: int, target: u32, deco: u32) -> bool {
    let o = op_at(w, st, k);
    ||| (o == OP_DECORATE || o == OP_DECORATE_STRING) && wc_at(w, st, k) >= 3 && arg_at(w, st, k, 1)
        == target && arg_at(w, st, k, 2) == deco
    ||| (o == OP_MEMBER_DECORATE || o == OP_MEMBER_DECORATE_STRING) && wc_at(w, st, k) >= 4
        && arg_at(w, st, k, 1) == target && arg_at(w, st, k, 3) == deco
}

/// Some annotation of `target` names decoration `deco`.
pub open spec fn annotated_with(w: Seq<u32>, st: Seq<int>, target: u32, deco: u32) -> bool {
    exists|k: int| 0 <= k < st.len() && annotates(w, st, k, target, deco)
}

/// The module's header declares a SPIR-V version above 1.3.
pub open spec fn version_above_1_3(w: Seq<u32>) -> bool {
    let major = (w[1] / 0x10000) % 0x100;
    let minor = (w[1] / 0x100) % 0x100;
    major > 1 || (major == 1 && minor > 3)
}

/// Reflection's walk from type `t`, for a variable of storage class `sc`, ends
/// within `fuel` steps without a panic: through runtime arrays and pointers (each
/// pointer in storage class `sc`), it reaches no sampled image type, and a struct
/// only with the `Block` and without the `BufferBlock` decoration where the
/// module is newer than SPIR-V 1.3.
pub open spec fn type_walk_safe(
    w: Seq<u32>,
    st: Seq<int>,
    t: u32,
    sc: u32,
    newer: bool,
    fuel: nat,
) -> bool
    decreases fuel,
{
    match first_definition_from(w, st, t, 0) {
        None => true,
        Some(k) => {
            let o = op_at(w, st, k);
            if o == OP_TYPE_RUNTIME_ARRAY {
                if fuel > 0 && wc_at(w, st, k) >= 3 {
                    type_walk_safe(w, st, arg_at(w, st, k, 2), sc, newer, (fuel - 1) as nat)
                } else {
                    false
                }
            } else if o == OP_TYPE_POINTER {
                if fuel > 0 && wc_at(w, st, k) >= 4 && arg_at(w, st, k, 2) == sc {
                    type_walk_safe(w, st, arg_at(w, st, k, 3), sc, newer, (fuel - 1) as nat)
                } else {
                    false
                }
            } else if o == OP_TYPE_SAMPLED_IMAGE {
                false
            } else if o == OP_TYPE_STRUCT {
                newer ==> annotated_with(w, st, t, DECORATION_BLOCK) && !annotated_with(
                    w,
                    st,
                    t,
                    DECORATION_BUFFER_BLOCK,
                )
            } else {
                true
            }
        },
    }
}

/// Instruction `k` is a descriptor variable: a global `OpVariable` in the
/// `UniformConstant`, `Uniform` or `StorageBuffer` storage class.
pub open spec fn is_descriptor_variable(w: Seq<u32>, st: Seq<int>, k: int) -> bool {
    &&& op_at(w, st, k) == OP_VARIABLE
    &&& !in_function_before(w, st, k)
    &&& wc_at(w, st, k) >= 4
    &&& (arg_at(w, st, k, 3) == STORAGE_CLASS_UNIFORM_CONSTANT || arg_at(w, st, k, 3)
        == STORAGE_CLASS_UNIFORM || arg_at(w, st, k, 3) == STORAGE_CLASS_STORAGE_BUFFER)
}

/// The (set, binding) slot of descriptor variable `k`, where it has both
/// decorations.
pub open spec fn variable_slot(w: Seq<u32>, st: Seq<int>, k: int) -> Option<(u32, u32)> {
    if is_descriptor_variable(w, st, k) {
        let v = arg_at(w, st, k, 2);
        match (
            first_decoration_from(w, st, v, DECORATION_DESCRIPTOR_SET, 0),
            first_decoration_from(w, st, v, DECORATION_BINDING, 0),
        ) {
            (Some(a), Some(b)) => Some((arg_at(w, st, a, 3), arg_at(w, st, b, 3))),
            _ => None,
        }
    } else {
        None
    }
}

/// Once there is a descriptor variable, reflection indexes the first operand of
/// every annotation, which an `OpDecorationGroup` lacks.
pub open spec fn no_decoration_group_with_variables(w: Seq<u32>, st: Seq<int>) -> bool {
    (exists|k: int| 0 <= k < st.len() && is_descriptor_variable(w, st, k)) ==> forall|k: int|
        0 <= k < st.len() ==> op_at(w, st, k) != OP_DECORATION_GROUP
}

/// Descriptor variable `k` is decorated at most once with a set and at most once
/// with a binding, and the walk from its type is safe.
pub open spec fn variable_safe(w: Seq<u32>, st: Seq<int>, k: int) -> bool {
    &&& decorated_at_most_once(w, st, arg_at(w, st, k, 2), DECORATION_DESCRIPTOR_SET)
    &&& decorated_at_most_once(w, st, arg_at(w, st, k, 2), DECORATION_BINDING)
    &&& type_walk_safe(
        w,
        st,
        arg_at(w, st, k, 1),
        arg_at(w, st, k, 3),
        version_above_1_3(w),
        st.len(),
    )
}

pub open spec fn variables_safe(w: Seq<u32>, st: Seq<int>) -> bool {
    forall|k: int|
        0 <= k < st.len() && #[trigger] is_descriptor_variable(w, st, k) ==> variable_safe(w, st, k)
}

/// No two descriptor variables share a slot.
pub open spec fn variable_slots_distinct(w: Seq<u32>, st: Seq<int>) -> bool {
    forall|k1: int, k2: int|
        0 <= k1 < k2 < st.len() && (#[trigger] variable_slot(w, st, k1)) is Some && (
        #[trigger] variable_slot(w, st, k2)) is Some ==> variable_slot(w, st, k1) != variable_slot(
            w,
            st,
            k2,
        )
}

/// What reflection asks of a module that parsed: no decoration group once there
/// is a descriptor variable; no descriptor variable decorated twice with a set or
/// twice with a binding; a safe walk from each descriptor variable's type; no two
/// descriptor variables in one slot.
pub open spec fn descriptor_variables_safe(w: Seq<u32>, st: Seq<int>) -> bool {
    &&& no_decoration_group_with_variables(w, st)
    &&& variables_safe(w, st)
    &&& variable_slots_distinct(w, st)
}

/// Instruction `k` is an `OpSpecConstantOp` whose operation is one the parser
/// cannot take there (`OpConstant`, `OpSpecConstant`, `OpSpecConstantOp`, read
/// from the low half of the word).
pub open spec fn bad_spec_constant_op(w: Seq<u32>, st: Seq<int>, k: int) -> bool {
    &&& op_at(w, st, k) == OP_SPEC_CONSTANT_OP
    &&& wc_at(w, st, k) >= 4
    &&& st[k] + 3 < w.len()
    &&& ({
        let n = opcode_of(arg_at(w, st, k, 3));
        n == OP_CONSTANT || n == OP_SPEC_CONSTANT || n == OP_SPEC_CONSTANT_OP
    })
}

/// rspirv-reflect reads the module `spirv` without panicking and without
/// endless recursion: a module that fails the header check is refused before any
/// instruction; otherwise no instruction the parser reaches is a bad
/// `OpSpecConstantOp`, and where the instructions split cleanly, the
/// descriptor variables are safe.
pub open spec fn reflectable(spirv: Seq<u8>) -> bool {
    let w = words_of(spirv, true);
    w.len() < 5 || w[0] != SPIRV_MAGIC || {
        let st = instruction_starts(w, 5);
        &&& forall|k: int| 0 <= k < st.len() ==> !bad_spec_constant_op(w, st, k)
        &&& splits_cleanly(w, 5) ==> descriptor_variables_safe(w, st)
    }
}

/// Every instruction start lies inside the words, and where the words split
/// cleanly every instruction has a nonzero word count and fits.
proof fn lemma_instruction_starts_bounds(w: Seq<u32>, p: int)
    requires
        0 <= p,
    ensures
        forall|k: int|
            0 <= k < instruction_starts(w, p).len() ==> p <= #[trigger] instruction_starts(w, p)[k]
                < w.len(),
        splits_cleanly(w, p) ==> forall|k: int|
            0 <= k < instruction_starts(w, p).len() ==> word_count_of(
                w[#[trigger] instruction_starts(w, p)[k]],
            ) >= 1 && instruction_starts(w, p)[k] + word_count_of(w[instruction_starts(w, p)[k]])
                <= w.len(),
    decreases w.len() - p,
{
    if p < w.len() && word_count_of(w[p]) != 0 && p + word_count_of(w[p]) <= w.len() {
        let q = p + word_count_of(w[p]);
        lemma_instruction_starts_bounds(w, q);
        let rest = instruction_starts(w, q);
        assert(instruction_starts(w, p) == seq![p] + rest);
        assert forall|k: int| 0 < k < instruction_starts(w, p).len() implies instruction_starts(
            w,
            p,
        )[k] == rest[k - 1] by {}
    }
}

/// The module's bytes read as little-endian words (trailing bytes that make no
/// whole word are left out, as the parser leaves them).
fn little_endian_words(spirv: &[u8]) -> (r: Vec<u32>)
    ensures
        r@ == words_of(spirv@, true),
{
    let len = spirv.len();
    let n = len / 4;
    let mut r: Vec<u32> = Vec::new();
    let mut i: usize = 0;
    while i < n
        invariant
            len == spirv@.len(),
            n == len / 4,
            0 <= i <= n,
            r@.len() == i,
            forall|j: int| 0 <= j < i ==> r@[j] == word_at(spirv@, j, true),
        decreases n - i,
    {
        assert(4 * i + 3 < len) by (nonlinear_arith)
            requires
                i < n,
                n == len / 4,
        ;
        let at: usize = 4 * i;
        let b0 = spirv[at] as u32;
        let b1 = spirv[at + 1] as u32;
        let b2 = spirv[at + 2] as u32;
        let b3 = spirv[at + 3] as u32;
        let word = b0 + b1 * 0x100 + b2 * 0x1_0000 + b3 * 0x100_0000;
        r.push(word);
        i = i + 1;
    }
    assert(r@ =~= words_of(spirv@, true));
    r
}

/// The instruction starts of the module's words, and whether they split cleanly.
fn walk_instructions(w: &Vec<u32>) -> (r: (Vec<usize>, bool))
    requires
        w@.len() >= 5,
    ensures
        r.0@.len() == instruction_starts(w@, 5).len(),
        forall|k: int| 0 <= k < r.0@.len() ==> r.0@[k] as int == instruction_starts(w@, 5)[k],
        r.1 == splits_cleanly(w@, 5),
{
    let mut starts: Vec<usize> = Vec::new();
    let mut p: usize = 5;
    let ghost mut done: Seq<int> = Seq::empty();
    while p < w.len()
        invariant
            5 <= p <= w@.len(),
            starts@.len() == done.len(),
            forall|k: int| 0 <= k < done.len() ==> starts@[k] as int == done[k],
            instruction_starts(w@, 5) == done + instruction_starts(w@, p as int),
            splits_cleanly(w@, 5) == splits_cleanly(w@, p as int),
        decreases w@.len() - p,
    {
        let c = (w[p] / 0x10000) as usize;
        starts.push(p);
        if c == 0 || c > w.len() - p {
            proof {
                assert(instruction_starts(w@, p as int) == seq![p as int]);
                done = done.push(p as int);
                assert(instruction_starts(w@, 5) =~= done);
            }
            return (starts, false);
        }
        proof {
            let rest = instruction_starts(w@, p + c);
            assert(instruction_starts(w@, p as int) == seq![p as int] + rest);
            assert(done + (seq![p as int] + rest) =~= done.push(p as int) + rest);
            done = done.push(p as int);
        }
        p = p + c;
    }
    proof {
        assert(done + instruction_starts(w@, p as int) =~= done);
    }
    (starts, true)
}

/// `starts` holds the instruction starts of `w` (which has a header).
spec fn starts_match(w: Seq<u32>, starts: Seq<usize>) -> bool {
    &&& w.len() >= 5
    &&& starts.len() == instruction_starts(w, 5).len()
    &&& forall|k: int|
        0 <= k < starts.len() ==> #[trigger] starts[k] as int == instruction_starts(w, 5)[k] && 5
            <= starts[k] < w.len()
}

/// ... and the words split cleanly, so every instruction fits.
spec fn well_split(w: Seq<u32>, starts: Seq<usize>) -> bool {
    &&& starts_match(w, starts)
    &&& splits_cleanly(w, 5)
    &&& forall|k: int|
        0 <= k < starts.len() ==> word_count_of(w[#[trigger] starts[k] as int]) >= 1 && starts[k]
            + word_count_of(w[starts[k] as int]) <= w.len()
}

/// `flags[k]` says whether instruction `k` stands inside a function.
spec fn flags_match(w: Seq<u32>, starts: Seq<usize>, flags: Seq<bool>) -> bool {
    &&& flags.len() == starts.len()
    &&& forall|k: int|
        0 <= k < flags.len() ==> #[trigger] flags[k] == in_function_before(
            w,
            instruction_starts(w, 5),
            k,
        )
}

/// Instruction `k` of a cleanly split module fits in the words.
proof fn lemma_instruction_fits(w: Seq<u32>, starts: Seq<usize>, k: int)
    requires
        well_split(w, starts),
        0 <= k < starts.len(),
    ensures
        starts[k] as int == instruction_starts(w, 5)[k],
        5 <= starts[k] < w.len(),
        word_count_of(w[starts[k] as int]) >= 1,
        starts[k] + word_count_of(w[starts[k] as int]) <= w.len(),
{
    assert(starts[k] == starts[k]);
}

fn function_flags(w: &Vec<u32>, starts: &Vec<usize>) -> (r: Vec<bool>)
    requires
        starts_match(w@, starts@),
    ensures
        flags_match(w@, starts@, r@),
{
    let ghost st = instruction_starts(w@, 5);
    let mut r: Vec<bool> = Vec::new();
    let mut inside = false;
    let mut k: usize = 0;
    while k < starts.len()
        invariant
            starts_match(w@, starts@),
            st == instruction_starts(w@, 5),
            k <= starts@.len(),
            r@.len() == k,
            forall|j: int| 0 <= j < k ==> #[trigger] r@[j] == in_function_before(w@, st, j),
            inside == in_function_before(w@, st, k as int),
        decreases starts@.len() - k,
    {
        r.push(inside);
        let o = w[starts[k]] % 0x10000;
        if o == OP_FUNCTION {
            inside = true;
        } else if o == OP_FUNCTION_END {
            inside = false;
        }
        assert(starts@[k as int] as int == st[k as int]);
        k = k + 1;
    }
    r
}

fn global_result_id_of(w: &Vec<u32>, starts: &Vec<usize>, flags: &Vec<bool>, k: usize) -> (r:
    Option<u32>)
    requires
        well_split(w@, starts@),
        flags_match(w@, starts@, flags@),
        k < starts@.len(),
    ensures
        r == global_result_id(w@, instruction_starts(w@, 5), k as int),
{
    let s = starts[k];
    let _n = w.len();
    proof {
        lemma_instruction_fits(w@, starts@, k as int);
    }
    assert(flags@[k as int] == in_function_before(w@, instruction_starts(w@, 5), k as int));
    let o = w[s] % 0x10000;
    let c = w[s] / 0x10000;
    if (19 <= o && o <= 38 || o == OP_TYPE_RAY_QUERY_PROVISIONAL_KHR || o
        == OP_TYPE_ACCELERATION_STRUCTURE_KHR) && c >= 2 {
        Some(w[s + 1])
    } else if (41 <= o && o <= 46 || 48 <= o && o <= 52) && c >= 3 {
        Some(w[s + 2])
    } else if (o == OP_UNDEF || o == OP_VARIABLE) && !flags[k] && c >= 3 {
        Some(w[s + 2])
    } else {
        None
    }
}

fn first_definition(w: &Vec<u32>, starts: &Vec<usize>, flags: &Vec<bool>, t: u32) -> (r: Option<
    usize,
>)
    requires
        well_split(w@, starts@),
        flags_match(w@, starts@, flags@),
    ensures
        match r {
            Some(k) => k < starts@.len() && first_definition_from(
                w@,
                instruction_starts(w@, 5),
                t,
                0,
            ) == Some(k as int),
            None => first_definition_from(w@, instruction_starts(w@, 5), t, 0) is None,
        },
{
    let ghost st = instruction_starts(w@, 5);
    let mut i: usize = 0;
    while i < starts.len()
        invariant
            well_split(w@, starts@),
            flags_match(w@, starts@, flags@),
            st == instruction_starts(w@, 5),
            i <= starts@.len(),
            first_definition_from(w@, st, t, 0) == first_definition_from(w@, st, t, i as int),
        decreases starts@.len() - i,
    {
        if let Some(x) = global_result_id_of(w, starts, flags, i) {
            if x == t {
                return Some(i);
            }
        }
        i = i + 1;
    }
    None
}

fn decorates_at(w: &Vec<u32>, starts: &Vec<usize>, k: usize, target: u32, deco: u32) -> (r: bool)
    requires
        well_split(w@, starts@),
        k < starts@.len(),
    ensures
        r == decorates(w@, instruction_starts(w@, 5), k as int, target, deco),
{
    let s = starts[k];
    let _n = w.len();
    proof {
        lemma_instruction_fits(w@, starts@, k as int);
    }
    let o = w[s] % 0x10000;
    (o == OP_DECORATE || o == OP_DECORATE_STRING) && w[s] / 0x10000 >= 4 && w[s + 1] == target
        && w[s + 2] == deco
}

fn first_decoration(w: &Vec<u32>, starts: &Vec<usize>, target: u32, deco: u32, from: usize) -> (r:
    Option<usize>)
    requires
        well_split(w@, starts@),
        from <= starts@.len(),
    ensures
        match r {
            Some(k) => k < starts@.len() && first_decoration_from(
                w@,
                instruction_starts(w@, 5),
                target,
                deco,
                from as int,
            ) == Some(k as int),
            None => first_decoration_from(
                w@,
                instruction_starts(w@, 5),
                target,
                deco,
                from as int,
            ) is None,
        },
{
    let ghost st = instruction_starts(w@, 5);
    let mut i: usize = from;
    while i < starts.len()
        invariant
            well_split(w@, starts@),
            st == instruction_starts(w@, 5),
            from <= i <= starts@.len(),
            first_decoration_from(w@, st, target, deco, from as int) == first_decoration_from(
                w@,
                st,
                target,
                deco,
                i as int,
            ),
        decreases starts@.len() - i,
    {
        if decorates_at(w, starts, i, target, deco) {
            return Some(i);
        }
        i = i + 1;
    }
    None
}

fn annotated_with_exec(w: &Vec<u32>, starts: &Vec<usize>, target: u32, deco: u32) -> (r: bool)
    requires
        well_split(w@, starts@),
    ensures
        r == annotated_with(w@, instruction_starts(w@, 5), target, deco),
{
    let ghost st = instruction_starts(w@, 5);
    let mut i: usize = 0;
    while i < starts.len()
        invariant
            well_split(w@, starts@),
            st == instruction_starts(w@, 5),
            i <= starts@.len(),
            forall|j: int| 0 <= j < i ==> !annotates(w@, st, j, target, deco),
        decreases starts@.len() - i,
    {
        let s = starts[i];
        let _n = w.len();
        proof {
            lemma_instruction_fits(w@, starts@, i as int);
        }
        let o = w[s] % 0x10000;
        let c = w[s] / 0x10000;
        if (o == OP_DECORATE || o == OP_DECORATE_STRING) && c >= 3 && w[s + 1] == target && w[s
            + 2] == deco {
            assert(annotates(w@, st, i as int, target, deco));
            return true;
        }
        if (o == OP_MEMBER_DECORATE || o == OP_MEMBER_DECORATE_STRING) && c >= 4 && w[s + 1]
            == target && w[s + 3] == deco {
            assert(annotates(w@, st, i as int, target, deco));
            return true;
        }
        i = i + 1;
    }
    false
}

fn type_walk_safe_exec(
    w: &Vec<u32>,
    starts: &Vec<usize>,
    flags: &Vec<bool>,
    t: u32,
    sc: u32,
    newer: bool,
) -> (r: bool)
    requires
        well_split(w@, starts@),
        flags_match(w@, starts@, flags@),
    ensures
        r == type_walk_safe(
            w@,
            instruction_starts(w@, 5),
            t,
            sc,
            newer,
            instruction_starts(w@, 5).len(),
        ),
{
    let ghost st = instruction_starts(w@, 5);
    let mut cur = t;
    let mut fuel: usize = starts.len();
    loop
        invariant
            well_split(w@, starts@),
            flags_match(w@, starts@, flags@),
            st == instruction_starts(w@, 5),
            type_walk_safe(w@, st, t, sc, newer, st.len()) == type_walk_safe(
                w@,
                st,
                cur,
                sc,
                newer,
                fuel as nat,
            ),
        decreases fuel,
    {
        match first_definition(w, starts, flags, cur) {
            None => {
                return true;
            },
            Some(k) => {
                let s = starts[k];
                let _n = w.len();
                proof {
                    lemma_instruction_fits(w@, starts@, k as int);
                }
                let o = w[s] % 0x10000;
                let c = w[s] / 0x10000;
                if o == OP_TYPE_RUNTIME_ARRAY {
                    if fuel > 0 && c >= 3 {
                        cur = w[s + 2];
                        fuel = fuel - 1;
                    } else {
                        return false;
                    }
                } else if o == OP_TYPE_POINTER {
                    if fuel > 0 && c >= 4 && w[s + 2] == sc {
                        cur = w[s + 3];
                        fuel = fuel - 1;
                    } else {
                        return false;
                    }
                } else if o == OP_TYPE_SAMPLED_IMAGE {
                    return false;
                } else if o == OP_TYPE_STRUCT {
                    if !newer {
                        return true;
                    }
                    let block = annotated_with_exec(w, starts, cur, DECORATION_BLOCK);
                    let buffer_block = annotated_with_exec(w, starts, cur, DECORATION_BUFFER_BLOCK);
                    return block && !buffer_block;
                } else {
                    return true;
                }
            },
        }
    }
}

fn version_above_1_3_exec(w: &Vec<u32>) -> (r: bool)
    requires
        w@.len() >= 5,
    ensures
        r == version_above_1_3(w@),
{
    let major = (w[1] / 0x10000) % 0x100;
    let minor = (w[1] / 0x100) % 0x100;
    major > 1 || (major == 1 && minor > 3)
}

fn is_descriptor_variable_exec(w: &Vec<u32>, starts: &Vec<usize>, flags: &Vec<bool>, k: usize) -> (r:
    bool)
    requires
        well_split(w@, starts@),
        flags_match(w@, starts@, flags@),
        k < starts@.len(),
    ensures
        r == is_descriptor_variable(w@, instruction_starts(w@, 5), k as int),
{
    let s = starts[k];
    let _n = w.len();
    proof {
        lemma_instruction_fits(w@, starts@, k as int);
    }
    assert(flags@[k as int] == in_function_before(w@, instruction_starts(w@, 5), k as int));
    let o = w[s] % 0x10000;
    if o != OP_VARIABLE || flags[k] || w[s] / 0x10000 < 4 {
        return false;
    }
    let sc = w[s + 3];
    sc == STORAGE_CLASS_UNIFORM_CONSTANT || sc == STORAGE_CLASS_UNIFORM || sc
        == STORAGE_CLASS_STORAGE_BUFFER
}

/// The first decoration found from `k` on is a decoration at or after `k`.
proof fn lemma_first_decoration_decorates(
    w: Seq<u32>,
    st: Seq<int>,
    target: u32,
    deco: u32,
    k: int,
)
    ensures
        first_decoration_from(w, st, target, deco, k) matches Some(a) ==> k <= a < st.len()
            && decorates(w, st, a, target, deco),
    decreases st.len() - k,
{
    if 0 <= k < st.len() && !decorates(w, st, k, target, deco) {
        lemma_first_decoration_decorates(w, st, target, deco, k + 1);
    }
}

fn decorated_at_most_once_exec(w: &Vec<u32>, starts: &Vec<usize>, target: u32, deco: u32) -> (r:
    bool)
    requires
        well_split(w@, starts@),
    ensures
        r == decorated_at_most_once(w@, instruction_starts(w@, 5), target, deco),
{
    let _n = starts.len();
    match first_decoration(w, starts, target, deco, 0) {
        None => true,
        Some(k) => first_decoration(w, starts, target, deco, k + 1).is_none(),
    }
}

/// Descriptor variable `k` passes `variable_safe`.
fn variable_safe_exec(
    w: &Vec<u32>,
    starts: &Vec<usize>,
    flags: &Vec<bool>,
    k: usize,
    newer: bool,
) -> (r: bool)
    requires
        well_split(w@, starts@),
        flags_match(w@, starts@, flags@),
        k < starts@.len(),
        is_descriptor_variable(w@, instruction_starts(w@, 5), k as int),
        newer == version_above_1_3(w@),
    ensures
        r == variable_safe(w@, instruction_starts(w@, 5), k as int),
{
    let s = starts[k];
    let _n = w.len();
    proof {
        lemma_instruction_fits(w@, starts@, k as int);
    }
    let v = w[s + 2];
    decorated_at_most_once_exec(w, starts, v, DECORATION_DESCRIPTOR_SET)
        && decorated_at_most_once_exec(w, starts, v, DECORATION_BINDING) && type_walk_safe_exec(
        w,
        starts,
        flags,
        w[s + 1],
        w[s + 3],
        newer,
    )
}

fn variable_slot_exec(w: &Vec<u32>, starts: &Vec<usize>, flags: &Vec<bool>, k: usize) -> (r: Option<
    (u32, u32),
>)
    requires
        well_split(w@, starts@),
        flags_match(w@, starts@, flags@),
        k < starts@.len(),
    ensures
        r == variable_slot(w@, instruction_starts(w@, 5), k as int),
{
    if !is_descriptor_variable_exec(w, starts, flags, k) {
        return None;
    }
    let s = starts[k];
    let _n = w.len();
    proof {
        lemma_instruction_fits(w@, starts@, k as int);
    }
    let v = w[s + 2];
    match (
        first_decoration(w, starts, v, DECORATION_DESCRIPTOR_SET, 0),
        first_decoration(w, starts, v, DECORATION_BINDING, 0),
    ) {
        (Some(a), Some(b)) => {
            proof {
                lemma_instruction_fits(w@, starts@, a as int);
                lemma_instruction_fits(w@, starts@, b as int);
                lemma_first_decoration_decorates(
                    w@,
                    instruction_starts(w@, 5),
                    v,
                    DECORATION_DESCRIPTOR_SET,
                    0,
                );
                lemma_first_decoration_decorates(
                    w@,
                    instruction_starts(w@, 5),
                    v,
                    DECORATION_BINDING,
                    0,
                );
            }
            Some((w[starts[a] + 3], w[starts[b] + 3]))
        },
        _ => None,
    }
}

fn no_decoration_group_with_variables_exec(
    w: &Vec<u32>,
    starts: &Vec<usize>,
    flags: &Vec<bool>,
) -> (r: bool)
    requires
        well_split(w@, starts@),
        flags_match(w@, starts@, flags@),
    ensures
        r == no_decoration_group_with_variables(w@, instruction_starts(w@, 5)),
{
    let ghost st = instruction_starts(w@, 5);
    let mut any_variable = false;
    let mut any_group = false;
    let mut i: usize = 0;
    while i < starts.len()
        invariant
            well_split(w@, starts@),
            flags_match(w@, starts@, flags@),
            st == instruction_starts(w@, 5),
            i <= starts@.len(),
            any_variable == exists|j: int| 0 <= j < i && is_descriptor_variable(w@, st, j),
            any_group == exists|j: int| 0 <= j < i && op_at(w@, st, j) == OP_DECORATION_GROUP,
        decreases starts@.len() - i,
    {
        if is_descriptor_variable_exec(w, starts, flags, i) {
            any_variable = true;
        }
        proof {
            lemma_instruction_fits(w@, starts@, i as int);
        }
        if w[starts[i]] % 0x10000 == OP_DECORATION_GROUP {
            any_group = true;
        }
        i = i + 1;
    }
    !(any_variable && any_group)
}

fn variables_safe_exec(w: &Vec<u32>, starts: &Vec<usize>, flags: &Vec<bool>) -> (r: bool)
    requires
        well_split(w@, starts@),
        flags_match(w@, starts@, flags@),
    ensures
        r == variables_safe(w@, instruction_starts(w@, 5)),
{
    let ghost st = instruction_starts(w@, 5);
    let newer = version_above_1_3_exec(w);
    let mut i: usize = 0;
    while i < starts.len()
        invariant
            well_split(w@, starts@),
            flags_match(w@, starts@, flags@),
            st == instruction_starts(w@, 5),
            newer == version_above_1_3(w@),
            i <= starts@.len(),
            forall|j: int|
                0 <= j < i && #[trigger] is_descriptor_variable(w@, st, j) ==> variable_safe(
                    w@,
                    st,
                    j,
                ),
        decreases starts@.len() - i,
    {
        if is_descriptor_variable_exec(w, starts, flags, i) {
            if !variable_safe_exec(w, starts, flags, i, newer) {
                assert(!variables_safe(w@, st)) by {
                    assert(is_descriptor_variable(w@, st, i as int));
                }
                return false;
            }
        }
        i = i + 1;
    }
    true
}

fn variable_slots_distinct_exec(w: &Vec<u32>, starts: &Vec<usize>, flags: &Vec<bool>) -> (r: bool)
    requires
        well_split(w@, starts@),
        flags_match(w@, starts@, flags@),
    ensures
        r == variable_slots_distinct(w@, instruction_starts(w@, 5)),
{
    let ghost st = instruction_starts(w@, 5);
    let n = starts.len();
    let mut slots: Vec<Option<(u32, u32)>> = Vec::new();
    let mut i: usize = 0;
    while i < n
        invariant
            well_split(w@, starts@),
            flags_match(w@, starts@, flags@),
            st == instruction_starts(w@, 5),
            n == starts@.len(),
            i <= n,
            slots@.len() == i,
            forall|j: int| 0 <= j < i ==> #[trigger] slots@[j] == variable_slot(w@, st, j),
        decreases n - i,
    {
        slots.push(variable_slot_exec(w, starts, flags, i));
        i = i + 1;
    }
    let mut k1: usize = 0;
    while k1 < n
        invariant
            st == instruction_starts(w@, 5),
            n == starts@.len(),
            n == st.len(),
            slots@.len() == n,
            forall|j: int| 0 <= j < n ==> #[trigger] slots@[j] == variable_slot(w@, st, j),
            k1 <= n,
            forall|a: int, b: int|
                0 <= a < k1 && a < b < n && (#[trigger] variable_slot(w@, st, a)) is Some && (
                #[trigger] variable_slot(w@, st, b)) is Some ==> variable_slot(w@, st, a)
                    != variable_slot(w@, st, b),
        decreases n - k1,
    {
        if let Some(x) = slots[k1] {
            let mut k2: usize = k1 + 1;
            while k2 < n
                invariant
                    st == instruction_starts(w@, 5),
                    n == starts@.len(),
                    n == st.len(),
                    slots@.len() == n,
                    forall|j: int| 0 <= j < n ==> #[trigger] slots@[j] == variable_slot(w@, st, j),
                    k1 < k2 <= n,
                    slots@[k1 as int] == Some(x),
                    forall|b: int|
                        k1 < b < k2 && (#[trigger] variable_slot(w@, st, b)) is Some
                            ==> variable_slot(w@, st, k1 as int) != variable_slot(w@, st, b),
                decreases n - k2,
            {
                if let Some(y) = slots[k2] {
                    if x.0 == y.0 && x.1 == y.1 {
                        assert(slots@[k2 as int] == slots@[k1 as int]);
                        assert(!variable_slots_distinct(w@, st)) by {
                            assert(variable_slot(w@, st, k1 as int) is Some);
                            assert(variable_slot(w@, st, k2 as int) is Some);
                        }
                        return false;
                    }
                }
                k2 = k2 + 1;
            }
        }
        k1 = k1 + 1;
    }
    true
}

fn no_bad_spec_constant_op(w: &Vec<u32>, starts: &Vec<usize>) -> (r: bool)
    requires
        starts_match(w@, starts@),
    ensures
        r == forall|k: int|
            0 <= k < instruction_starts(w@, 5).len() ==> !bad_spec_constant_op(
                w@,
                instruction_starts(w@, 5),
                k,
            ),
{
    let ghost st = instruction_starts(w@, 5);
    let mut i: usize = 0;
    while i < starts.len()
        invariant
            starts_match(w@, starts@),
            st == instruction_starts(w@, 5),
            i <= starts@.len(),
            forall|j: int| 0 <= j < i ==> !bad_spec_constant_op(w@, st, j),
        decreases starts@.len() - i,
    {
        let s = starts[i];
        assert(s as int == st[i as int]);
        let o = w[s] % 0x10000;
        if o == OP_SPEC_CONSTANT_OP && w[s] / 0x10000 >= 4 && s < w.len() - 3 {
            let m = w[s + 3] % 0x10000;
            if m == OP_CONSTANT || m == OP_SPEC_CONSTANT || m == OP_SPEC_CONSTANT_OP {
                assert(bad_spec_constant_op(w@, st, i as int));
                return false;
            }
        }
        i = i + 1;
    }
    true
}

/// Whether rspirv-reflect can reflect the module `spirv` without panicking (see
/// `reflectable`).
pub fn is_reflectable(spirv: &[u8]) -> (r: bool)
    ensures
        r == reflectable(spirv@),
{
    let w = little_endian_words(spirv);
    if w.len() < 5 || w[0] != SPIRV_MAGIC {
        return true;
    }
    let (starts, clean) = walk_instructions(&w);
    proof {
        lemma_instruction_starts_bounds(w@, 5);
    }
    assert(starts_match(w@, starts@));
    if !no_bad_spec_constant_op(&w, &starts) {
        return false;
    }
    if !clean {
        return true;
    }
    assert(well_split(w@, starts@)) by {
        assert forall|k: int| 0 <= k < starts@.len() implies word_count_of(
            w@[#[trigger] starts@[k] as int],
        ) >= 1 && starts@[k] + word_count_of(w@[starts@[k] as int]) <= w@.len() by {
            assert(starts@[k] as int == instruction_starts(w@, 5)[k]);
        }
    }
    let flags = function_flags(&w, &starts);
    no_decoration_group_with_variables_exec(&w, &starts, &flags) && variables_safe_exec(
        &w,
        &starts,
        &flags,
    ) && variable_slots_distinct_exec(&w, &starts, &flags)
}

/// Two descriptor variables clash only when they name both the same set and the
/// same binding: variables that differ in either never break the slot condition.
pub proof fn lemma_slot_clash_needs_same_set_and_binding(w: Seq<u32>, st: Seq<int>)
    ensures
        variable_slots_distinct(w, st) <==> forall|k1: int, k2: int|
            0 <= k1 < k2 < st.len() && (#[trigger] variable_slot(w, st, k1)) is Some && (
            #[trigger] variable_slot(w, st, k2)) is Some ==> (variable_slot(w, st, k1)->0).0 != (
            variable_slot(w, st, k2)->0).0 || (variable_slot(w, st, k1)->0).1 != (variable_slot(
                w,
                st,
                k2,
            )->0).1,
{
}

/// The set of a descriptor variable's slot is the literal of its `DescriptorSet`
/// decoration and the binding that of its `Binding` decoration.
pub proof fn lemma_variable_slot_comes_from_its_decorations(w: Seq<u32>, st: Seq<int>, k: int)
    ensures
        variable_slot(w, st, k) matches Some(slot) ==> is_descriptor_variable(w, st, k) && (exists|
            a: int,
        |
            0 <= a < st.len() && decorates(w, st, a, arg_at(w, st, k, 2), DECORATION_DESCRIPTOR_SET)
                && arg_at(w, st, a, 3) == slot.0) && (exists|b: int|
            0 <= b < st.len() && decorates(w, st, b, arg_at(w, st, k, 2), DECORATION_BINDING)
                && arg_at(w, st, b, 3) == slot.1),
{
    if variable_slot(w, st, k) is Some {
        let v = arg_at(w, st, k, 2);
        lemma_first_decoration_decorates(w, st, v, DECORATION_DESCRIPTOR_SET, 0);
        lemma_first_decoration_decorates(w, st, v, DECORATION_BINDING, 0);
    }
}

} // verus!
