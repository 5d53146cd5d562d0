//! Static validation of a compiled function body: along every path through
//! the instruction stream the operand stack depth is consistent, never
//! negative, and ends one above the parameters; and every jump lands on an
//! instruction boundary.
//!
//! The property is stated as the existence of a depth map: an assignment of
//! a stack depth to each reachable byte offset, consistent with every
//! instruction's effect. The compiler proposes such a map and a verified
//! validator checks it, so a compiled function carries the proof that its
//! body admits one.

use vstd::prelude::*;

use crate::instruction::{decode_at, spec_decode, Instruction, Offset};

verus! {

/// Whether offset `o` is marked in the depth map with depth `d`.
pub open spec fn marked(map: Seq<Option<int>>, o: int, d: int) -> bool {
    &&& 0 <= o < map.len()
    &&& map[o] == Option::Some(d)
}

/// The byte offset a jump lands on, measured from the byte after the jump.
pub open spec fn jump_target(next: int, off: Offset) -> int {
    match off {
        Offset::Forward(n) => next + n,
        Offset::Backward(n) => next - n,
    }
}

/// Consistency of the depth map at a marked instruction boundary `o` with
/// depth `d`: the instruction there decodes, its stack needs are covered by
/// `d`, and each successor boundary (fall-through and jump targets alike)
/// is marked with the depth the instruction leaves behind.
pub open spec fn step_ok(arity: int, b: Seq<u8>, map: Seq<Option<int>>, o: int, d: int) -> bool {
    match spec_decode(b, o) {
        Err(_) => false,
        Ok((ins, next)) => match ins {
            Instruction::Constant(_) => marked(map, next, d + 1),
            Instruction::InlineConstant(_) => marked(map, next, d + 1),
            Instruction::Unary(_) => d >= 1 && marked(map, next, d),
            Instruction::Binary(_) => d >= 2 && marked(map, next, d - 1),
            Instruction::LoadLocal(_) => marked(map, next, d + 1),
            Instruction::StoreLocal(_) => d >= 1 && marked(map, next, d - 1),
            Instruction::LoadNamed(_) => marked(map, next, d + 1),
            Instruction::StoreNamed(_) => d >= 1 && marked(map, next, d - 1),
            Instruction::LoadPositionalField(_) => marked(map, next, d + 1),
            Instruction::StorePositionalField(_) => d >= 1 && marked(map, next, d - 1),
            Instruction::LoadNamedField(_) => marked(map, next, d + 1),
            Instruction::StoreNamedField(_) => d >= 1 && marked(map, next, d - 1),
            Instruction::Pop => d >= 1 && marked(map, next, d - 1),
            Instruction::PopScope(k) => k + 1 <= d && marked(map, next, k + 1),
            Instruction::Call(n) => d >= n + 1 && marked(map, next, d - n),
            Instruction::Return => d >= arity + 1,
            Instruction::Jump(off) => marked(map, jump_target(next, off), d),
            Instruction::JumpIf(off) => d >= 1 && marked(map, jump_target(next, off), d - 1)
                && marked(map, next, d - 1),
        },
    }
}

/// Consistency of one entry of the depth map: where offset `o` is marked,
/// its depth is not negative, the end of the body is at depth exactly
/// `arity + 1` — one above the entry — and every other marked offset obeys
/// its instruction.
pub open spec fn entry_ok(arity: int, b: Seq<u8>, map: Seq<Option<int>>, o: int) -> bool {
    match map[o] {
        Option::Some(d) => d >= 0 && (if o == b.len() {
            d == arity + 1
        } else {
            step_ok(arity, b, map, o, d)
        }),
        Option::None => true,
    }
}

/// A consistent depth map for a function body of `b` with the given arity:
/// one entry per byte offset (plus the end-of-body offset), the entry point
/// marked at depth `arity` (the parameters), and every entry consistent.
pub open spec fn depth_map_ok(arity: int, b: Seq<u8>, map: Seq<Option<int>>) -> bool {
    &&& map.len() == b.len() + 1
    &&& marked(map, 0, arity)
    &&& forall|o: int| 0 <= o <= b.len() ==> #[trigger] entry_ok(arity, b, map, o)
}

/// The stack-effect and jump-validity property of a function body: some
/// consistent depth map exists for it.
pub open spec fn checked_function(arity: int, b: Seq<u8>) -> bool {
    exists|map: Seq<Option<int>>| depth_map_ok(arity, b, map)
}

/// The ghost view of a proposed depth map.
pub open spec fn dview(map: Seq<Option<usize>>) -> Seq<Option<int>> {
    Seq::new(
        map.len(),
        |i: int|
            match map[i] {
                Option::Some(d) => Option::Some(d as int),
                Option::None => Option::None,
            },
    )
}

/// Check one marked offset of a proposed depth map.
fn check_step(arity: u16, b: &Vec<u8>, map: &Vec<Option<usize>>, o: usize, d: usize) -> (r: bool)
    requires
        map@.len() == b@.len() + 1,
        o < b@.len(),
    ensures
        r == step_ok(arity as int, b@, dview(map@), o as int, d as int),
{
    let ins = match decode_at(b, o) {
        Ok((ins, _)) => ins,
        Err(_) => {
            return false;
        },
    };
    let next = match decode_at(b, o) {
        Ok((_, next)) => next,
        Err(_) => {
            return false;
        },
    };
    match ins {
        Instruction::Constant(_) => at_depth_succ(map, next, d),
        Instruction::InlineConstant(_) => at_depth_succ(map, next, d),
        Instruction::Unary(_) => d >= 1 && at_depth(map, next, d),
        Instruction::Binary(_) => d >= 2 && at_depth(map, next, d - 1),
        Instruction::LoadLocal(_) => at_depth_succ(map, next, d),
        Instruction::StoreLocal(_) => d >= 1 && at_depth(map, next, d - 1),
        Instruction::LoadNamed(_) => at_depth_succ(map, next, d),
        Instruction::StoreNamed(_) => d >= 1 && at_depth(map, next, d - 1),
        Instruction::LoadPositionalField(_) => at_depth_succ(map, next, d),
        Instruction::StorePositionalField(_) => d >= 1 && at_depth(map, next, d - 1),
        Instruction::LoadNamedField(_) => at_depth_succ(map, next, d),
        Instruction::StoreNamedField(_) => d >= 1 && at_depth(map, next, d - 1),
        Instruction::Pop => d >= 1 && at_depth(map, next, d - 1),
        Instruction::PopScope(k) => k < d && at_depth(map, next, k + 1),
        Instruction::Call(n) => d >= 1 && d - 1 >= n && at_depth(map, next, d - n),
        Instruction::Return => d >= arity as usize + 1,
        Instruction::Jump(off) => match off {
            Offset::Forward(n) => {
                if n <= map.len() - 1 - next {
                    at_depth(map, next + n, d)
                } else {
                    proof {
                        assert(!marked(dview(map@), next + n, d as int));
                    }
                    false
                }
            },
            Offset::Backward(n) => {
                if n <= next {
                    at_depth(map, next - n, d)
                } else {
                    proof {
                        assert(!marked(dview(map@), next - n, d as int));
                    }
                    false
                }
            },
        },
        Instruction::JumpIf(off) => {
            if d < 1 {
                return false;
            }
            let cont = at_depth(map, next, d - 1);
            match off {
                Offset::Forward(n) => {
                    if n <= map.len() - 1 - next {
                        cont && at_depth(map, next + n, d - 1)
                    } else {
                        proof {
                            assert(!marked(dview(map@), next + n, d as int - 1));
                        }
                        false
                    }
                },
                Offset::Backward(n) => {
                    if n <= next {
                        cont && at_depth(map, next - n, d - 1)
                    } else {
                        proof {
                            assert(!marked(dview(map@), next - n, d as int - 1));
                        }
                        false
                    }
                },
            }
        },
    }
}

/// Whether offset `o` of the proposed map is marked with depth `d + 1`.
fn at_depth_succ(map: &Vec<Option<usize>>, o: usize, d: usize) -> (r: bool)
    requires
        o < map@.len(),
    ensures
        r == marked(dview(map@), o as int, d as int + 1),
{
    if d == usize::MAX {
        proof {
            match map@[o as int] {
                Option::Some(x) => {
                    assert(dview(map@)[o as int] == Option::Some(x as int));
                    assert(x as int <= usize::MAX);
                },
                Option::None => {
                    assert(dview(map@)[o as int] is None);
                },
            }
        }
        false
    } else {
        at_depth(map, o, d + 1)
    }
}

/// Whether offset `o` of the proposed map is marked with depth `d`.
fn at_depth(map: &Vec<Option<usize>>, o: usize, d: usize) -> (r: bool)
    requires
        o < map@.len(),
    ensures
        r == marked(dview(map@), o as int, d as int),
{
    match &map[o] {
        Some(x) => *x == d,
        None => false,
    }
}

/// Validate a proposed depth map for a function body: true exactly when it
/// is consistent in the sense of `depth_map_ok`.
pub fn validate_depth_map(arity: u16, b: &Vec<u8>, map: &Vec<Option<usize>>) -> (r: bool)
    ensures
        r == depth_map_ok(arity as int, b@, dview(map@)),
        r ==> checked_function(arity as int, b@),
{
    let n = b.len();
    let ml = map.len();
    if n == usize::MAX {
        proof {
            assert(map@.len() <= usize::MAX);
        }
        return false;
    }
    if ml != n + 1 {
        return false;
    }
    if !at_depth(map, 0, arity as usize) {
        return false;
    }
    let mut o: usize = 0;
    while o <= n
        invariant
            0 <= o <= n + 1,
            n == b@.len(),
            n < usize::MAX,
            map@.len() == n + 1,
            marked(dview(map@), 0, arity as int),
            forall|oo: int|
                0 <= oo < o ==> #[trigger] entry_ok(arity as int, b@, dview(map@), oo),
        decreases n + 1 - o,
    {
        match &map[o] {
            Some(dd) => {
                let d = *dd;
                proof {
                    assert(dview(map@)[o as int] == Option::Some(d as int));
                }
                if o == n {
                    if !(d >= 1 && d - 1 == arity as usize) {
                        proof {
                            assert(!entry_ok(arity as int, b@, dview(map@), o as int));
                        }
                        return false;
                    }
                } else {
                    if !check_step(arity, b, map, o, d) {
                        proof {
                            assert(!entry_ok(arity as int, b@, dview(map@), o as int));
                        }
                        return false;
                    }
                }
                proof {
                    assert(entry_ok(arity as int, b@, dview(map@), o as int));
                }
            },
            None => {
                proof {
                    assert(dview(map@)[o as int] is None);
                    assert(entry_ok(arity as int, b@, dview(map@), o as int));
                }
            },
        }
        o = o + 1;
    }
    proof {
        assert(depth_map_ok(arity as int, b@, dview(map@)));
    }
    true
}


/// Propose a depth map for a function body by a single left-to-right pass:
/// simulate the stack depth, remember the depth each forward jump promises
/// its target, and leave offsets after an unconditional jump unmarked until
/// a promised target revives the walk. The proposal carries no guarantee of
/// its own; `validate_depth_map` judges it.
pub fn propose_depth_map(arity: u16, b: &Vec<u8>) -> (r: Option<Vec<Option<usize>>>)
{
    let n = b.len();
    if n >= usize::MAX - 1 {
        return None;
    }
    let mut map: Vec<Option<usize>> = Vec::new();
    let mut pending: Vec<(usize, usize)> = Vec::new();
    let mut cur: Option<usize> = Some(arity as usize);
    let mut o: usize = 0;
    while o < n
        invariant
            0 <= o <= n,
            n == b@.len(),
            n < usize::MAX - 1,
            map@.len() == o,
        decreases n - o,
    {
        let mut dep = cur;
        let np = pending.len();
        let mut j: usize = 0;
        while j < np
            invariant
                0 <= j <= np,
                np == pending@.len(),
            decreases np - j,
        {
            let (t, dt) = pending[j];
            if t == o {
                match dep {
                    Some(d) => if d != dt {
                        return None;
                    },
                    None => {
                        dep = Some(dt);
                    },
                }
            }
            j = j + 1;
        }
        let (ins, next) = match decode_at(b, o) {
            Ok(x) => x,
            Err(_) => {
                return None;
            },
        };
        match dep {
            None => {
                map.push(None);
            },
            Some(d) => {
                map.push(Some(d));
                match ins {
                    Instruction::Constant(_) | Instruction::InlineConstant(_)
                        | Instruction::LoadLocal(_) | Instruction::LoadNamed(_)
                        | Instruction::LoadPositionalField(_) | Instruction::LoadNamedField(_) => {
                        if d == usize::MAX {
                            return None;
                        }
                        cur = Some(d + 1);
                    },
                    Instruction::Unary(_) => {
                        if d < 1 {
                            return None;
                        }
                        cur = Some(d);
                    },
                    Instruction::Binary(_) => {
                        if d < 2 {
                            return None;
                        }
                        cur = Some(d - 1);
                    },
                    Instruction::StoreLocal(_) | Instruction::StoreNamed(_) | Instruction::Pop
                        | Instruction::StorePositionalField(_)
                        | Instruction::StoreNamedField(_) => {
                        if d < 1 {
                            return None;
                        }
                        cur = Some(d - 1);
                    },
                    Instruction::PopScope(k) => {
                        if k >= d {
                            return None;
                        }
                        cur = Some(k + 1);
                    },
                    Instruction::Call(m) => {
                        if d < 1 || d - 1 < m {
                            return None;
                        }
                        cur = Some(d - m);
                    },
                    Instruction::Return => {
                        cur = None;
                    },
                    Instruction::Jump(off) => {
                        match off {
                            Offset::Forward(f) => {
                                if f > n - next {
                                    return None;
                                }
                                pending.push((next + f, d));
                            },
                            Offset::Backward(bk) => {
                                if bk > next {
                                    return None;
                                }
                            },
                        }
                        cur = None;
                    },
                    Instruction::JumpIf(off) => {
                        if d < 1 {
                            return None;
                        }
                        match off {
                            Offset::Forward(f) => {
                                if f > n - next {
                                    return None;
                                }
                                pending.push((next + f, d - 1));
                            },
                            Offset::Backward(bk) => {
                                if bk > next {
                                    return None;
                                }
                            },
                        }
                        cur = Some(d - 1);
                    },
                }
            },
        }
        let mut k = o + 1;
        while k < next
            invariant
                o < k <= next || k == o + 1,
                next <= n,
                map@.len() == k,
            decreases next - k,
        {
            map.push(None);
            k = k + 1;
        }
        if next <= o {
            return None;
        }
        o = next;
    }
    let mut dep = cur;
    let np = pending.len();
    let mut j: usize = 0;
    while j < np
        invariant
            0 <= j <= np,
            np == pending@.len(),
        decreases np - j,
    {
        let (t, dt) = pending[j];
        if t == n {
            match dep {
                Some(d) => if d != dt {
                    return None;
                },
                None => {
                    dep = Some(dt);
                },
            }
        }
        j = j + 1;
    }
    map.push(dep);
    Some(map)
}

} // verus!
