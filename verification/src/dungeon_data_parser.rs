use vstd::prelude::*;
use crate::reverser_instruction::{InstructionType, ReverserInstruction, instr_of_tile};

verus! {

/// One parsing step: air is skipped without interrupting a run, a repeated
/// unknown tile extends the previous instruction's call range, any other
/// digit appends its instruction.
pub open spec fn parse_step(
    state: (Seq<ReverserInstruction>, Option<u8>),
    ch: u8,
) -> (Seq<ReverserInstruction>, Option<u8>) {
    let (instrs, last) = state;
    if ch == 50 {  // b'2': air
        (instrs, last)
    } else if instrs.len() > 0 && (ch == 51 || ch == 52) && last == Some(ch) {
        let prev = instrs[instrs.len() - 1];
        (
            instrs.update(
                instrs.len() - 1,
                ReverserInstruction {
                    instruction_type: prev.instruction_type,
                    min_call_count: prev.min_call_count,
                    max_call_count: (prev.max_call_count + 1) as i32,
                },
            ),
            Some(ch),
        )
    } else {
        match instr_of_tile((ch - 48) as u8) {
            Some(ins) => (instrs.push(ins), Some(ch)),
            None => (instrs, Some(ch)),
        }
    }
}

/// The instruction list and last-seen tile after parsing a digit sequence.
pub open spec fn parse_tiles(s: Seq<u8>) -> (Seq<ReverserInstruction>, Option<u8>)
    decreases s.len(),
{
    if s.len() == 0 {
        (Seq::empty(), None)
    } else {
        parse_step(parse_tiles(s.drop_last()), s.last())
    }
}

/// Remove trailing skip and mutable-skip instructions: they observe nothing.
pub open spec fn elide_trailing(l: Seq<ReverserInstruction>) -> Seq<ReverserInstruction>
    decreases l.len(),
{
    if l.len() > 0 && (l.last().instruction_type == InstructionType::Skip
        || l.last().instruction_type == InstructionType::MutableSkip) {
        elide_trailing(l.drop_last())
    } else {
        l
    }
}

/// How many concrete programs one instruction stands for.
pub open spec fn n_options(r: ReverserInstruction) -> nat {
    if r.instruction_type == InstructionType::MutableSkip {
        if r.max_call_count >= r.min_call_count {
            (r.max_call_count - r.min_call_count + 1) as nat
        } else {
            0
        }
    } else {
        1
    }
}

/// The number of concrete programs the instruction list from `ix` expands to.
pub open spec fn expansion_count(l: Seq<ReverserInstruction>, ix: int) -> nat
    decreases l.len() - ix,
{
    if ix < 0 || ix >= l.len() {
        1
    } else {
        n_options(l[ix]) * expansion_count(l, ix + 1)
    }
}

/// Put `r` in front of every program.
pub open spec fn prepend_all(r: ReverserInstruction, tails: Seq<Seq<ReverserInstruction>>) -> Seq<
    Seq<ReverserInstruction>,
> {
    tails.map_values(|t: Seq<ReverserInstruction>| seq![r] + t)
}

/// A fixed `Skip(c)` instruction.
pub open spec fn skip_of(c: int) -> ReverserInstruction {
    ReverserInstruction {
        instruction_type: InstructionType::Skip,
        min_call_count: c as i32,
        max_call_count: c as i32,
    }
}

/// The programs a mutable skip expands to, for each call count in `[lo, hi]`
/// in order: zero calls contributes the tails unchanged, `c > 0` prefixes
/// `Skip(c)`.
pub open spec fn mutable_skip_block(lo: int, hi: int, tails: Seq<Seq<ReverserInstruction>>) -> Seq<
    Seq<ReverserInstruction>,
>
    decreases hi + 1 - lo,
{
    if lo > hi {
        Seq::empty()
    } else {
        (if lo == 0 {
            tails
        } else {
            prepend_all(skip_of(lo), tails)
        }) + mutable_skip_block(lo + 1, hi, tails)
    }
}

/// Every concrete program the instruction list from `ix` expands to, in the
/// order the expansion walk emits them.
pub open spec fn expansions_from(l: Seq<ReverserInstruction>, ix: int) -> Seq<
    Seq<ReverserInstruction>,
>
    decreases l.len() - ix,
{
    if ix < 0 || ix >= l.len() {
        seq![Seq::empty()]
    } else if l[ix].instruction_type == InstructionType::MutableSkip {
        mutable_skip_block(
            l[ix].min_call_count as int,
            l[ix].max_call_count as int,
            expansions_from(l, ix + 1),
        )
    } else {
        prepend_all(l[ix], expansions_from(l, ix + 1))
    }
}

/// The parsed, elided instruction list of a tile sequence.
pub open spec fn parsed_program(s: Seq<u8>) -> Seq<ReverserInstruction> {
    elide_trailing(parse_tiles(s).0)
}

/// Parses a floor tile sequence into reverser instructions and expands every
/// mutable unknown into its concrete alternatives.
pub struct DungeonDataParser;

impl DungeonDataParser {
    /// Parse the tile digits and generate all concrete instruction lists.
    /// None exactly when the mutable unknowns expand to more than 128
    /// programs; otherwise the full expansion, in walk order.
    pub fn get_all_possibilities(sequence: &Vec<u8>) -> (r: Option<Vec<Vec<ReverserInstruction>>>)
        requires
            forall|i: int| 0 <= i < sequence@.len() ==> 48 <= #[trigger] sequence@[i] <= 57,
            sequence@.len() < 0x7FFF_0000,
        ensures
            r is Some <==> expansion_count(parsed_program(sequence@), 0) <= 128,
            r is Some ==> {
                let ex = expansions_from(parsed_program(sequence@), 0);
                &&& r->0@.len() == ex.len()
                &&& forall|i: int| 0 <= i < ex.len() ==> r->0@[i]@ == ex[i]
            },
    {
        let mut instructions: Vec<ReverserInstruction> = Vec::new();
        let mut last_char: Option<u8> = None;
        let mut i: usize = 0;

        while i < sequence.len()
            invariant
                forall|k: int| 0 <= k < sequence@.len() ==> 48 <= #[trigger] sequence@[k] <= 57,
                sequence@.len() < 0x7FFF_0000,
                i <= sequence@.len(),
                (instructions@, last_char) == parse_tiles(sequence@.take(i as int)),
                forall|k: int|
                    0 <= k < instructions@.len() ==> #[trigger] instructions@[k].max_call_count
                        <= i + 1,
            decreases sequence@.len() - i,
        {
            let ch = sequence[i];
            proof {
                assert(sequence@.take(i + 1).drop_last() =~= sequence@.take(i as int));
                assert(sequence@.take(i + 1).last() == sequence@[i as int]);
            }
            if ch == 50 {
                // air
            } else if instructions.len() > 0 && (ch == 51 || ch == 52) && last_char == Some(ch) {
                let ghost before = instructions@;
                let prev = instructions.pop().unwrap();
                instructions.push(
                    ReverserInstruction {
                        instruction_type: prev.instruction_type,
                        min_call_count: prev.min_call_count,
                        max_call_count: prev.max_call_count + 1,
                    },
                );
                proof {
                    assert(instructions@ =~= before.update(
                        before.len() - 1,
                        ReverserInstruction {
                            instruction_type: prev.instruction_type,
                            min_call_count: prev.min_call_count,
                            max_call_count: (prev.max_call_count + 1) as i32,
                        },
                    ));
                }
                last_char = Some(ch);
            } else {
                if let Some(ins) = ReverserInstruction::from_tile_index(ch - 48) {
                    instructions.push(ins);
                }
                last_char = Some(ch);
            }
            i = i + 1;
        }
        proof {
            assert(sequence@.take(sequence@.len() as int) =~= sequence@);
        }

        // Remove trailing skips and mutable skips.
        loop
            invariant
                elide_trailing(instructions@) == elide_trailing(parse_tiles(sequence@).0),
            ensures
                instructions@ == elide_trailing(parse_tiles(sequence@).0),
            decreases instructions@.len(),
        {
            let n = instructions.len();
            if n == 0 {
                break ;
            }
            let last = instructions[n - 1];
            if matches!(last.instruction_type, InstructionType::Skip) || matches!(
                last.instruction_type,
                InstructionType::MutableSkip,
            ) {
                proof {
                    assert(instructions@.drop_last() =~= instructions@.take(n - 1));
                }
                instructions.pop();
            } else {
                break ;
            }
        }

        // Count the expansions, saturating just above the cap.
        let count = Self::count_expansions(&instructions);
        if count > 128 {
            return None;
        }

        Some(Self::expand_from(&instructions, 0))
    }

    /// `min(expansion_count, 129)`.
    fn count_expansions(l: &Vec<ReverserInstruction>) -> (r: u64)
        ensures
            r == if expansion_count(l@, 0) <= 129 {
                expansion_count(l@, 0)
            } else {
                129nat
            },
    {
        let mut i: usize = l.len();
        let mut c: u64 = 1;
        while i > 0
            invariant
                i <= l@.len(),
                c == if expansion_count(l@, i as int) <= 129 {
                    expansion_count(l@, i as int)
                } else {
                    129nat
                },
                c <= 129,
            decreases i,
        {
            i = i - 1;
            let ins = l[i];
            let opts: u64 = if matches!(ins.instruction_type, InstructionType::MutableSkip) {
                if ins.max_call_count >= ins.min_call_count {
                    ((ins.max_call_count as i64) - (ins.min_call_count as i64) + 1) as u64
                } else {
                    0
                }
            } else {
                1
            };
            let ghost c_old = c as nat;
            let ghost rest = expansion_count(l@, i + 1);
            proof {
                assert(c * opts < 0x8000_0000_0000u64) by (nonlinear_arith)
                    requires
                        c <= 129,
                        opts <= 0x2_0000_0000u64,
                ;
            }
            let prod = c * opts;
            c = if prod > 129 {
                129
            } else {
                prod
            };
            proof {
                lemma_capped_product(n_options(l@[i as int]), rest, c_old, opts as nat);
            }
        }
        c
    }

    /// Build every expansion of `l` from position `ix`, in walk order.
    fn expand_from(l: &Vec<ReverserInstruction>, ix: usize) -> (r: Vec<Vec<ReverserInstruction>>)
        requires
            ix <= l@.len(),
        ensures
            r@.len() == expansions_from(l@, ix as int).len(),
            forall|i: int|
                0 <= i < r@.len() ==> r@[i]@ == #[trigger] expansions_from(l@, ix as int)[i],
        decreases l@.len() - ix,
    {
        if ix >= l.len() {
            let mut one: Vec<Vec<ReverserInstruction>> = Vec::new();
            one.push(Vec::new());
            return one;
        }
        let ins = l[ix];
        let tails = Self::expand_from(l, ix + 1);
        if matches!(ins.instruction_type, InstructionType::MutableSkip) {
            let mut out: Vec<Vec<ReverserInstruction>> = Vec::new();
            let mut calls = ins.min_call_count;
            let ghost lo = ins.min_call_count as int;
            let ghost hi = ins.max_call_count as int;
            if calls > ins.max_call_count {
                proof {
                    assert(mutable_skip_block(lo, hi, expansions_from(l@, ix + 1)) =~= Seq::<
                        Seq<ReverserInstruction>,
                    >::empty());
                }
                return out;
            }
            loop
                invariant_except_break
                    mutable_skip_block(lo, hi, expansions_from(l@, ix + 1)) =~= out_prefix_spec(
                        out@,
                    ) + mutable_skip_block(calls as int, hi, expansions_from(l@, ix + 1)),
                invariant
                    ix < l@.len(),
                    l@[ix as int] == ins,
                    ins.instruction_type == InstructionType::MutableSkip,
                    lo == ins.min_call_count as int,
                    hi == ins.max_call_count as int,
                    lo <= calls as int <= hi,
                    tails@.len() == expansions_from(l@, ix + 1).len(),
                    forall|i: int|
                        0 <= i < tails@.len() ==> tails@[i]@ == #[trigger] expansions_from(
                            l@,
                            ix + 1,
                        )[i],
                    forall|i: int| 0 <= i < out@.len() ==> #[trigger] out_prefix_spec(out@)[i]
                        == out@[i]@,
                    out_prefix_spec(out@).len() == out@.len(),
                ensures
                    out@.len() == mutable_skip_block(lo, hi, expansions_from(l@, ix + 1)).len(),
                    forall|i: int|
                        0 <= i < out@.len() ==> out@[i]@ == #[trigger] mutable_skip_block(
                            lo,
                            hi,
                            expansions_from(l@, ix + 1),
                        )[i],
                decreases hi - calls,
            {
                let ghost block_pre = mutable_skip_block(calls as int, hi, expansions_from(l@, ix + 1));
                let ghost out_pre = out@;
                let mut t: usize = 0;
                while t < tails.len()
                    invariant
                        t <= tails@.len(),
                        ix < l@.len(),
                        lo <= calls as int <= hi,
                        tails@.len() == expansions_from(l@, ix + 1).len(),
                        forall|i: int|
                            0 <= i < tails@.len() ==> tails@[i]@ == #[trigger] expansions_from(
                                l@,
                                ix + 1,
                            )[i],
                        out@.len() == out_pre.len() + t,
                        forall|i: int| 0 <= i < out_pre.len() ==> #[trigger] out@[i] == out_pre[i],
                        forall|i: int|
                            0 <= i < t ==> out@[out_pre.len() + i]@ == #[trigger] one_block_spec(
                                calls as int,
                                expansions_from(l@, ix + 1),
                            )[i],
                    decreases tails@.len() - t,
                {
                    let mut program: Vec<ReverserInstruction> = Vec::new();
                    if calls != 0 {
                        program.push(
                            ReverserInstruction::new(InstructionType::Skip, calls, calls),
                        );
                    }
                    let tail = &tails[t];
                    let mut j: usize = 0;
                    let ghost pre_prog = program@;
                    while j < tail.len()
                        invariant
                            j <= tail@.len(),
                            program@ == pre_prog + tail@.take(j as int),
                        decreases tail@.len() - j,
                    {
                        proof {
                            assert(tail@.take(j + 1) =~= tail@.take(j as int).push(
                                tail@[j as int],
                            ));
                        }
                        program.push(tail[j]);
                        j = j + 1;
                    }
                    proof {
                        assert(tail@.take(tail@.len() as int) =~= tail@);
                        if calls == 0 {
                            assert(program@ =~= tail@);
                        } else {
                            assert(program@ =~= seq![skip_of(calls as int)] + tail@);
                        }
                    }
                    out.push(program);
                    t = t + 1;
                }
                proof {
                    lemma_block_extend(calls as int, hi, expansions_from(l@, ix + 1), out_pre, out@);
                }
                if calls == ins.max_call_count {
                    proof {
                        assert(mutable_skip_block(calls as int + 1, hi, expansions_from(l@, ix + 1))
                            =~= Seq::<Seq<ReverserInstruction>>::empty());
                    }
                    break ;
                }
                calls = calls + 1;
            }
            return out;
        }
        // Fixed instruction: prefix it to every tail.
        let mut out: Vec<Vec<ReverserInstruction>> = Vec::new();
        let mut t: usize = 0;
        while t < tails.len()
            invariant
                t <= tails@.len(),
                ix < l@.len(),
                l@[ix as int] == ins,
                !(ins.instruction_type == InstructionType::MutableSkip),
                tails@.len() == expansions_from(l@, ix + 1).len(),
                forall|i: int|
                    0 <= i < tails@.len() ==> tails@[i]@ == #[trigger] expansions_from(
                        l@,
                        ix + 1,
                    )[i],
                out@.len() == t,
                forall|i: int|
                    0 <= i < t ==> out@[i]@ == #[trigger] prepend_all(
                        ins,
                        expansions_from(l@, ix + 1),
                    )[i],
            decreases tails@.len() - t,
        {
            let mut program: Vec<ReverserInstruction> = Vec::new();
            program.push(ins);
            let tail = &tails[t];
            let mut j: usize = 0;
            while j < tail.len()
                invariant
                    j <= tail@.len(),
                    program@ == seq![ins] + tail@.take(j as int),
                decreases tail@.len() - j,
            {
                proof {
                    assert(tail@.take(j + 1) =~= tail@.take(j as int).push(tail@[j as int]));
                }
                program.push(tail[j]);
                j = j + 1;
            }
            proof {
                assert(tail@.take(tail@.len() as int) =~= tail@);
            }
            out.push(program);
            t = t + 1;
        }
        out
    }
}

/// The views of a built program list.
pub open spec fn out_prefix_spec(v: Seq<Vec<ReverserInstruction>>) -> Seq<Seq<ReverserInstruction>> {
    v.map_values(|p: Vec<ReverserInstruction>| p@)
}

/// One call-count slice of a mutable-skip block.
pub open spec fn one_block_spec(calls: int, tails: Seq<Seq<ReverserInstruction>>) -> Seq<
    Seq<ReverserInstruction>,
> {
    if calls == 0 {
        tails
    } else {
        prepend_all(skip_of(calls), tails)
    }
}

proof fn lemma_block_extend(
    calls: int,
    hi: int,
    tails: Seq<Seq<ReverserInstruction>>,
    out_pre: Seq<Vec<ReverserInstruction>>,
    out_new: Seq<Vec<ReverserInstruction>>,
)
    requires
        calls <= hi,
        out_new.len() == out_pre.len() + one_block_spec(calls, tails).len(),
        forall|i: int| 0 <= i < out_pre.len() ==> #[trigger] out_new[i] == out_pre[i],
        forall|i: int|
            0 <= i < one_block_spec(calls, tails).len() ==> out_new[out_pre.len() + i]@
                == #[trigger] one_block_spec(calls, tails)[i],
    ensures
        out_prefix_spec(out_new) =~= out_prefix_spec(out_pre) + one_block_spec(calls, tails),
        mutable_skip_block(calls, hi, tails) == one_block_spec(calls, tails) + mutable_skip_block(
            calls + 1,
            hi,
            tails,
        ),
{
}

proof fn lemma_capped_product(opts_spec: nat, rest: nat, c_old: nat, opts: nat)
    requires
        opts == opts_spec,
        c_old == if rest <= 129 {
            rest
        } else {
            129nat
        },
    ensures
        (if c_old * opts > 129 {
            129nat
        } else {
            c_old * opts
        }) == (if opts_spec * rest <= 129 {
            opts_spec * rest
        } else {
            129nat
        }),
{
    if rest <= 129 {
        assert(c_old * opts == opts_spec * rest) by (nonlinear_arith)
            requires
                c_old == rest,
                opts == opts_spec,
        ;
    } else {
        // rest > 129, c_old == 129
        if opts == 0 {
            assert(c_old * opts == 0) by (nonlinear_arith)
                requires
                    opts == 0,
            ;
            assert(opts_spec * rest == 0) by (nonlinear_arith)
                requires
                    opts_spec == 0,
            ;
        } else {
            assert(c_old * opts >= 129 && opts_spec * rest > 129) by (nonlinear_arith)
                requires
                    c_old == 129,
                    opts >= 1,
                    opts == opts_spec,
                    rest > 129,
            ;
        }
    }
}

} // verus!
