//! The assembler driver: a first pass collects instructions and binds each
//! label to the address of the next instruction, a second pass rewrites
//! every symbolic address operand through the finished symbol table, and
//! byte emission encodes the resolved program in order.

use vstd::prelude::*;

use crate::address::clone_bytes;
use crate::argument::ArgV;
use crate::error::{ErrV, Error};
use crate::instruction::{from_parts_post, spec_inst_err, Instruction, Mnemonic};
use crate::parser::{lemma_deep_view_elems, Item, ItemV};

verus! {

/// The fixed program-load origin of the target machine.
pub const PROGRAM_START: u16 = 0x200;

/// The label table as name/address pairs.
pub open spec fn tbl_view(t: Seq<(Vec<u8>, u16)>) -> Seq<(Seq<u8>, u16)> {
    Seq::new(t.len(), |i: int| (t[i].0@, t[i].1))
}

/// The address bound to `name`: the first binding under that name.
pub open spec fn tbl_get(t: Seq<(Seq<u8>, u16)>, name: Seq<u8>) -> Option<u16>
    decreases t.len(),
{
    if t.len() == 0 {
        None
    } else if t[0].0 == name {
        Some(t[0].1)
    } else {
        tbl_get(t.skip(1), name)
    }
}

/// The number of instruction items among the first `k` items: the
/// instruction at a position is the one the `insts_before`-th slot of the
/// program holds, and a label at position `k` binds to the address of the
/// next instruction emitted after it.
pub open spec fn insts_before(items: Seq<ItemV>, k: int) -> int
    decreases k,
{
    if k <= 0 {
        0
    } else {
        insts_before(items, k - 1) + (if items[k - 1] is Inst {
            1int
        } else {
            0int
        })
    }
}

/// The address a label binds to after `cnt` instructions, clipped to the
/// 16-bit word for the out-of-range error payload.
pub open spec fn addr_of_count(cnt: int) -> u16 {
    if 0x200 + 2 * cnt <= 0xFFFF {
        (0x200 + 2 * cnt) as u16
    } else {
        0xFFFF
    }
}

/// The first pass over the first `k` items: the instruction count and the
/// label table it accumulates, or its first error — a failing instruction
/// statement, a duplicate label, or a label address beyond the 12-bit
/// address space.
pub open spec fn pass1_upto(items: Seq<ItemV>, k: int) -> Result<(int, Seq<(Seq<u8>, u16)>), ErrV>
    decreases k,
{
    if k <= 0 {
        Ok((0, seq![]))
    } else {
        match pass1_upto(items, k - 1) {
            Err(e) => Err(e),
            Ok((cnt, tbl)) => match items[k - 1] {
                ItemV::Inst(m, avs) => match spec_inst_err(m, avs) {
                    Some(e) => Err(e),
                    None => Ok((cnt + 1, tbl)),
                },
                ItemV::Label(name) => {
                    if tbl_get(tbl, name) is Some {
                        Err(ErrV::DuplicateLabel(name))
                    } else if 0x200 + 2 * cnt > 0x0FFF {
                        Err(ErrV::ExceedBounds(addr_of_count(cnt), 0x0FFF))
                    } else {
                        Ok((cnt, tbl.push((name, addr_of_count(cnt)))))
                    }
                },
            },
        }
    }
}

/// The whole first pass.
pub open spec fn spec_pass1(items: Seq<ItemV>) -> Result<(int, Seq<(Seq<u8>, u16)>), ErrV> {
    pass1_upto(items, items.len() as int)
}

/// The first symbolic label among the classified operands of a statement.
pub open spec fn first_label(avs: Seq<ArgV>) -> Option<Seq<u8>>
    decreases avs.len(),
{
    if avs.len() == 0 {
        None
    } else {
        match avs[0] {
            ArgV::Lbl(n) => Some(n),
            _ => first_label(avs.skip(1)),
        }
    }
}

/// The second pass over the items: the first reference, in program order,
/// to a label the table does not bind.
pub open spec fn pass2_err(items: Seq<ItemV>, tbl: Seq<(Seq<u8>, u16)>) -> Option<ErrV>
    decreases items.len(),
{
    if items.len() == 0 {
        None
    } else {
        let head_err = match items[0] {
            ItemV::Inst(_, avs) => match first_label(avs) {
                Some(n) => if tbl_get(tbl, n) is None {
                    Some(ErrV::UnresolvedLabel(n))
                } else {
                    None
                },
                None => None,
            },
            ItemV::Label(_) => None,
        };
        if head_err is Some {
            head_err
        } else {
            pass2_err(items.skip(1), tbl)
        }
    }
}

/// The second pass over the built program: the first instruction whose
/// label the table does not bind.
pub open spec fn pass2_err_prog(prog: Seq<Instruction>, tbl: Seq<(Seq<u8>, u16)>) -> Option<ErrV>
    decreases prog.len(),
{
    if prog.len() == 0 {
        None
    } else {
        match prog[0].unresolved_name() {
            Some(n) => if tbl_get(tbl, n) is None {
                Some(ErrV::UnresolvedLabel(n))
            } else {
                pass2_err_prog(prog.skip(1), tbl)
            },
            None => pass2_err_prog(prog.skip(1), tbl),
        }
    }
}

/// Whether `i` is the instruction that the statement `(m, avs)` selects,
/// with its label operand, if any, resolved through the table.
pub open spec fn resolved_inst(
    m: Mnemonic,
    avs: Seq<ArgV>,
    tbl: Seq<(Seq<u8>, u16)>,
    i: Instruction,
) -> bool {
    match first_label(avs) {
        None => from_parts_post(m, avs, Ok(i)),
        Some(n) => tbl_get(tbl, n) matches Some(a) && (exists|i0: Instruction|
            #[trigger] from_parts_post(m, avs, Ok(i0)) && Instruction::resolves_to(i0, a, i)),
    }
}

/// What a successful build guarantees: one instruction per instruction
/// item, in source order, each the one its statement selects, with its
/// label resolved through the finished table.
pub open spec fn build_ok(
    items: Seq<ItemV>,
    prog: Seq<Instruction>,
    tbl: Seq<(Seq<u8>, u16)>,
) -> bool {
    &&& prog.len() == insts_before(items, items.len() as int)
    &&& forall|k: int|
        0 <= k < items.len() ==> ((#[trigger] items[k]) matches ItemV::Inst(m, avs)
            ==> resolved_inst(m, avs, tbl, prog[insts_before(items, k)]))
}

/// The concatenated encodings of a program, in order.
pub open spec fn flat_bytes(prog: Seq<Instruction>) -> Seq<u8>
    decreases prog.len(),
{
    if prog.len() == 0 {
        seq![]
    } else {
        seq![prog[0].spec_bytes().0, prog[0].spec_bytes().1].add(flat_bytes(prog.skip(1)))
    }
}


/// Counting instruction items never decreases as the prefix grows.
pub proof fn lemma_insts_before_mono(items: Seq<ItemV>, a: int, b: int)
    requires
        0 <= a <= b,
    ensures
        insts_before(items, a) <= insts_before(items, b),
    decreases b - a,
{
    if a < b {
        lemma_insts_before_mono(items, a, b - 1);
    }
}

/// Counting instruction items commutes with dropping the first item.
pub proof fn lemma_insts_before_skip(items: Seq<ItemV>, k: int)
    requires
        0 <= k,
        items.len() >= 1,
        k + 1 <= items.len(),
    ensures
        insts_before(items.skip(1), k) == insts_before(items, k + 1) - insts_before(items, 1),
    decreases k,
{
    if k > 0 {
        assert(items.skip(1)[k - 1] == items[k]);
        lemma_insts_before_skip(items, k - 1);
    }
}

/// A first-pass error stays the error of every longer prefix.
pub proof fn lemma_pass1_err_persists(items: Seq<ItemV>, a: int, b: int)
    requires
        0 <= a <= b,
        pass1_upto(items, a) is Err,
    ensures
        pass1_upto(items, b) == pass1_upto(items, a),
    decreases b - a,
{
    if a < b {
        lemma_pass1_err_persists(items, a, b - 1);
    }
}

/// The instruction a statement selects carries an unresolved label exactly
/// where the statement's operand list holds one.
pub proof fn lemma_ok_unresolved_name(m: Mnemonic, avs: Seq<ArgV>, i: Instruction)
    requires
        from_parts_post(m, avs, Ok(i)),
    ensures
        i.unresolved_name() == first_label(avs),
{
    if avs.len() >= 1 {
        assert(first_label(avs.skip(1)) == first_label(avs.skip(1)));
        if avs.len() >= 2 {
            assert(avs.skip(1).skip(1) =~= avs.skip(2));
            assert(first_label(avs.skip(2)) == first_label(avs.skip(2)));
            if avs.len() >= 3 {
                assert(avs.skip(2).skip(1) =~= avs.skip(3));
                assert(first_label(avs.skip(3)) == first_label(avs.skip(3)));
                assert(avs.skip(3).len() == avs.len() - 3);
            }
        }
    }
}

/// Walking the items and walking the built program find the same first
/// unresolved reference.
pub proof fn lemma_pass2_correspond(
    items: Seq<ItemV>,
    prog: Seq<Instruction>,
    tbl: Seq<(Seq<u8>, u16)>,
)
    requires
        prog.len() == insts_before(items, items.len() as int),
        forall|k: int|
            0 <= k < items.len() ==> ((#[trigger] items[k]) matches ItemV::Inst(m, avs)
                ==> from_parts_post(m, avs, Ok(prog[insts_before(items, k)]))),
    ensures
        pass2_err(items, tbl) == pass2_err_prog(prog, tbl),
    decreases items.len(),
{
    if items.len() == 0 {
        assert(prog.len() == 0);
    } else {
        let rest = items.skip(1);
        assert forall|k: int| 0 <= k < rest.len() implies insts_before(rest, k) == insts_before(
            items,
            k + 1,
        ) - insts_before(items, 1) by {
            lemma_insts_before_skip(items, k);
        }
        lemma_insts_before_skip(items, items.len() - 1);
        match items[0] {
            ItemV::Label(_) => {
                assert(insts_before(items, 0) == 0);
                assert(insts_before(items, 1) == 0);
                assert(prog.len() == insts_before(rest, rest.len() as int));
                assert forall|k: int| 0 <= k < rest.len() implies ((#[trigger] rest[k]) matches
                    ItemV::Inst(m, avs) ==> from_parts_post(
                    m,
                    avs,
                    Ok(prog[insts_before(rest, k)]),
                )) by {
                    assert(rest[k] == items[k + 1]);
                }
                lemma_pass2_correspond(rest, prog, tbl);
            },
            ItemV::Inst(m0, avs0) => {
                assert(insts_before(items, 0) == 0);
                assert(insts_before(items, 1) == 1);
                lemma_insts_before_mono(items, 1, items.len() as int);
                assert(prog.len() >= 1);
                assert(insts_before(items, 0) == 0);
                lemma_ok_unresolved_name(m0, avs0, prog[0]);
                let pr = prog.skip(1);
                assert(pr.len() == insts_before(rest, rest.len() as int));
                assert forall|k: int| 0 <= k < rest.len() implies ((#[trigger] rest[k]) matches
                    ItemV::Inst(m, avs) ==> from_parts_post(
                    m,
                    avs,
                    Ok(pr[insts_before(rest, k)]),
                )) by {
                    assert(rest[k] == items[k + 1]);
                    lemma_insts_before_mono(items, 1, k + 1);
                    lemma_insts_before_mono(items, k + 2, items.len() as int);
                    if rest[k] is Inst {
                        assert(insts_before(items, k + 2) == insts_before(items, k + 1) + 1);
                        assert(insts_before(rest, k) == insts_before(items, k + 1) - 1);
                        assert(1 <= insts_before(items, k + 1) < prog.len());
                        assert(pr[insts_before(items, k + 1) - 1] == prog[insts_before(
                            items,
                            k + 1,
                        )]);
                    }
                }
                lemma_pass2_correspond(rest, pr, tbl);
            },
        }
    }
}


/// The binding that the second pass applies at one program slot: an
/// instruction with an unresolved label takes the table's address for that
/// label; every other instruction is left untouched.
pub open spec fn resolved_slot(
    pre: Instruction,
    tbl: Seq<(Seq<u8>, u16)>,
    post: Instruction,
) -> bool {
    match pre.unresolved_name() {
        Some(n) => tbl_get(tbl, n) matches Some(a) && Instruction::resolves_to(pre, a, post),
        None => post == pre,
    }
}

/// A looked-up address satisfies any bound all table entries satisfy.
pub proof fn lemma_tbl_get_bound(tbl: Seq<(Seq<u8>, u16)>, name: Seq<u8>, bound: u16)
    requires
        forall|t: int| 0 <= t < tbl.len() ==> (#[trigger] tbl[t]).1 <= bound,
    ensures
        tbl_get(tbl, name) matches Some(a) ==> a <= bound,
    decreases tbl.len(),
{
    if tbl.len() > 0 && tbl[0].0 != name {
        assert forall|t: int| 0 <= t < tbl.skip(1).len() implies (#[trigger] tbl.skip(1)[t]).1
            <= bound by {
            assert(tbl.skip(1)[t] == tbl[t + 1]);
        }
        lemma_tbl_get_bound(tbl.skip(1), name, bound);
    }
}

/// Whether two byte vectors hold the same bytes.
fn bytes_eq(a: &Vec<u8>, b: &Vec<u8>) -> (r: bool)
    ensures
        r == (a@ == b@),
{
    if a.len() != b.len() {
        return false;
    }
    let mut i: usize = 0;
    while i < a.len()
        invariant
            0 <= i <= a@.len(),
            a@.len() == b@.len(),
            forall|j: int| 0 <= j < i ==> a@[j] == b@[j],
        decreases a@.len() - i,
    {
        if a[i] != b[i] {
            return false;
        }
        i = i + 1;
    }
    proof {
        assert(a@ =~= b@);
    }
    true
}

/// The address bound to `name`, by the first binding in the table.
fn tbl_lookup(labels: &Vec<(Vec<u8>, u16)>, name: &Vec<u8>) -> (r: Option<u16>)
    ensures
        r == tbl_get(tbl_view(labels@), name@),
{
    let ghost tv = tbl_view(labels@);
    let mut i: usize = 0;
    proof {
        assert(tv.skip(0) =~= tv);
    }
    while i < labels.len()
        invariant
            0 <= i <= labels@.len(),
            tv == tbl_view(labels@),
            tv.len() == labels@.len(),
            tbl_get(tv, name@) == tbl_get(tv.skip(i as int), name@),
        decreases labels@.len() - i,
    {
        proof {
            assert(tv.skip(i as int)[0] == tv[i as int]);
            assert(tv[i as int] == (labels@[i as int].0@, labels@[i as int].1));
            assert(tv.skip(i as int).skip(1) =~= tv.skip(i + 1));
        }
        let pair = &labels[i];
        if bytes_eq(&pair.0, name) {
            return Some(pair.1);
        }
        i = i + 1;
    }
    proof {
        assert(tv.skip(i as int) =~= Seq::<(Seq<u8>, u16)>::empty());
    }
    None
}

/// The two-pass assembler: the collected program and its symbol table.
#[derive(Debug)]
pub struct Assembler {
    instructions: Vec<Instruction>,
    labels: Vec<(Vec<u8>, u16)>,
}

impl Assembler {
    /// The collected program, in source order.
    pub closed spec fn program(self) -> Seq<Instruction> {
        self.instructions@
    }

    /// The symbol table: label names and their bound addresses.
    pub closed spec fn tbl(self) -> Seq<(Seq<u8>, u16)> {
        tbl_view(self.labels@)
    }

    /// After a successful build no instruction holds an unresolved label,
    /// so byte emission cannot fail.
    pub open spec fn wf(self) -> bool {
        forall|j: int|
            0 <= j < self.program().len() ==> ((#[trigger] self.program()[j]).wf()
                && self.program()[j].resolved())
    }
}


impl Assembler {
    /// Runs both passes over the syntax items: collects instructions and
    /// label bindings in source order (a label binds to the address of the
    /// next instruction, `0x200 + 2 * count`), then rewrites every
    /// symbolic address operand through the finished table. The first
    /// failure aborts the build: a failing statement, a duplicate label, a
    /// label beyond the 12-bit address space, or a reference to a label
    /// that no definition binds.
    pub fn build(items: &Vec<Item>) -> (r: Result<Assembler, Error>)
        requires
            crate::parser::items_args_wf(items.deep_view()),
        ensures
            ({
                let its = items.deep_view();
                match spec_pass1(its) {
                    Err(e) => r matches Err(err) && err@ == e,
                    Ok((cnt, tbl)) => match pass2_err(its, tbl) {
                        Some(e) => r matches Err(err) && err@ == e,
                        None => r matches Ok(out) && out.wf() && out.tbl() == tbl && build_ok(
                            its,
                            out.program(),
                            tbl,
                        ),
                    },
                }
            }),
    {
        let ghost its = items.deep_view();
        proof {
            crate::parser::lemma_deep_view_elems(items);
            assert(tbl_view(Seq::<(Vec<u8>, u16)>::empty()) =~= Seq::<(Seq<u8>, u16)>::empty());
        }
        let mut instructions: Vec<Instruction> = Vec::new();
        let mut labels: Vec<(Vec<u8>, u16)> = Vec::new();
        let mut k: usize = 0;
        proof {
            assert(labels@ =~= Seq::<(Vec<u8>, u16)>::empty());
            assert(tbl_view(labels@) =~= Seq::<(Seq<u8>, u16)>::empty());
        }
        while k < items.len()
            invariant
                0 <= k <= items@.len(),
                its == items.deep_view(),
                its.len() == items@.len(),
                forall|x: int| 0 <= x < items@.len() ==> its[x] == #[trigger] items@[x].deep_view(),
                crate::parser::items_args_wf(its),
                pass1_upto(its, k as int) == Ok::<(int, Seq<(Seq<u8>, u16)>), ErrV>((
                    instructions@.len() as int,
                    tbl_view(labels@),
                )),
                instructions@.len() == insts_before(its, k as int),
                forall|j: int| 0 <= j < instructions@.len() ==> (#[trigger] instructions@[j]).wf(),
                forall|k2: int|
                    0 <= k2 < k ==> ((#[trigger] its[k2]) matches ItemV::Inst(m, avs)
                        ==> from_parts_post(m, avs, Ok(instructions@[insts_before(its, k2)]))),
                forall|t: int|
                    0 <= t < labels@.len() ==> (#[trigger] tbl_view(labels@)[t]).1 <= 0x0FFF,
            decreases items@.len() - k,
        {
            proof {
                assert(its[k as int] == items@[k as int].deep_view());
                assert(crate::parser::item_wf(its[k as int]));
            }
            match &items[k] {
                Item::Inst(m, args) => {
                    proof {
                        assert(its[k as int] == ItemV::Inst(*m, args.deep_view()));
                    }
                    match Instruction::from_parts(*m, args) {
                        Err(e) => {
                            proof {
                                assert(pass1_upto(its, k + 1) == Err::<
                                    (int, Seq<(Seq<u8>, u16)>),
                                    ErrV,
                                >(e@));
                                lemma_pass1_err_persists(its, k + 1, its.len() as int);
                            }
                            return Err(e);
                        },
                        Ok(inst) => {
                            let ghost prog0 = instructions@;
                            instructions.push(inst);
                            proof {
                                assert(instructions@ == prog0.push(inst));
                                assert(insts_before(its, k + 1) == insts_before(its, k as int)
                                    + 1);
                                assert forall|k2: int| 0 <= k2 < k + 1 implies ((
                                #[trigger] its[k2]) matches ItemV::Inst(m2, avs2)
                                    ==> from_parts_post(
                                    m2,
                                    avs2,
                                    Ok(instructions@[insts_before(its, k2)]),
                                )) by {
                                    if its[k2] is Inst {
                                        if k2 < k {
                                            assert(insts_before(its, k2 + 1) == insts_before(
                                                its,
                                                k2,
                                            ) + 1);
                                            lemma_insts_before_mono(its, 0, k2);
                                            lemma_insts_before_mono(its, k2 + 1, k as int);
                                            assert(0 <= insts_before(its, k2) < prog0.len());
                                            assert(prog0.push(inst)[insts_before(its, k2)]
                                                == prog0[insts_before(its, k2)]);
                                            assert(instructions@[insts_before(its, k2)]
                                                == prog0[insts_before(its, k2)]);
                                        } else {
                                            assert(insts_before(its, k2) == prog0.len());
                                        }
                                    }
                                }
                            }
                        },
                    }
                },
                Item::Label(name) => {
                    proof {
                        assert(its[k as int] == ItemV::Label(name@));
                    }
                    match tbl_lookup(&labels, name) {
                        Some(_) => {
                            proof {
                                lemma_pass1_err_persists(its, k + 1, its.len() as int);
                            }
                            return Err(Error::DuplicateLabel(clone_bytes(name)));
                        },
                        None => {
                            let cnt = instructions.len();
                            if cnt > 1791 {
                                let val: u16 = if cnt <= 32511 {
                                    (0x200 + 2 * cnt) as u16
                                } else {
                                    0xFFFF
                                };
                                proof {
                                    assert(val == addr_of_count(cnt as int));
                                    lemma_pass1_err_persists(its, k + 1, its.len() as int);
                                }
                                return Err(Error::ExceedBounds(val, 0x0FFF));
                            }
                            let addr: u16 = (0x200 + 2 * cnt) as u16;
                            let ghost lbl0 = labels@;
                            let ghost tv0 = tbl_view(labels@);
                            labels.push((clone_bytes(name), addr));
                            proof {
                                assert(addr == addr_of_count(cnt as int));
                                assert(labels@.len() == lbl0.len() + 1);
                                assert forall|t: int| 0 <= t < lbl0.len() implies tbl_view(
                                    labels@,
                                )[t] == tv0[t] by {
                                    assert(labels@[t] == lbl0[t]);
                                }
                                assert(tbl_view(labels@)[lbl0.len() as int] == (
                                    labels@[lbl0.len() as int].0@,
                                    labels@[lbl0.len() as int].1,
                                ));
                                assert(tbl_view(labels@) =~= tv0.push((name@, addr)));
                            }
                        },
                    }
                },
            }
            k = k + 1;
        }
        let ghost tbl = tbl_view(labels@);
        let ghost prog0 = instructions@;
        proof {
            lemma_pass2_correspond(its, prog0, tbl);
            assert(prog0.skip(0) =~= prog0);
        }
        let mut idx: usize = 0;
        while idx < instructions.len()
            invariant
                0 <= idx <= prog0.len(),
                instructions@.len() == prog0.len(),
                its == items.deep_view(),
                spec_pass1(its) == Ok::<(int, Seq<(Seq<u8>, u16)>), ErrV>((
                    prog0.len() as int,
                    tbl,
                )),
                prog0.len() == insts_before(its, its.len() as int),
                pass2_err(its, tbl) == pass2_err_prog(prog0, tbl),
                forall|k2: int|
                    0 <= k2 < its.len() ==> ((#[trigger] its[k2]) matches ItemV::Inst(m, avs)
                        ==> from_parts_post(m, avs, Ok(prog0[insts_before(its, k2)]))),
                tbl == tbl_view(labels@),
                forall|t: int| 0 <= t < tbl.len() ==> (#[trigger] tbl[t]).1 <= 0x0FFF,
                forall|j: int| idx <= j < prog0.len() ==> instructions@[j] == prog0[j],
                forall|j: int| 0 <= j < prog0.len() ==> (#[trigger] prog0[j]).wf(),
                forall|j: int|
                    0 <= j < idx ==> resolved_slot(prog0[j], tbl, #[trigger] instructions@[j]),
                pass2_err_prog(prog0, tbl) == pass2_err_prog(prog0.skip(idx as int), tbl),
            decreases prog0.len() - idx,
        {
            proof {
                assert(prog0.skip(idx as int)[0] == prog0[idx as int]);
                assert(prog0.skip(idx as int).skip(1) =~= prog0.skip(idx + 1));
            }
            let nm: Option<Vec<u8>> = match instructions[idx].unresolved_arg() {
                Some(n) => Some(clone_bytes(n)),
                None => None,
            };
            match nm {
                None => {},
                Some(n) => {
                    match tbl_lookup(&labels, &n) {
                        None => {
                            return Err(Error::UnresolvedLabel(n));
                        },
                        Some(a) => {
                            proof {
                                lemma_tbl_get_bound(tbl, n@, 0x0FFF);
                            }
                            let inst = &mut instructions[idx];
                            let res = inst.resolve_arg(a);
                            match res {
                                Ok(_) => {},
                                Err(e) => {
                                    return Err(e);
                                },
                            }
                        },
                    }
                },
            }
            idx = idx + 1;
        }
        proof {
            assert(prog0.skip(idx as int) =~= Seq::<Instruction>::empty());
            assert(pass2_err(its, tbl) is None);
        }
        let ghost progf = instructions@;
        let out = Assembler { instructions, labels };
        proof {
            assert(out.program() == progf);
            assert(out.tbl() == tbl);
            assert forall|k2: int| 0 <= k2 < its.len() implies ((#[trigger] its[k2]) matches
                ItemV::Inst(m, avs) ==> resolved_inst(m, avs, tbl, progf[insts_before(
                its,
                k2,
            )])) by {
                if its[k2] is Inst {
                    assert(insts_before(its, k2 + 1) == insts_before(its, k2) + 1);
                    lemma_insts_before_mono(its, 0, k2);
                    lemma_insts_before_mono(its, k2 + 1, its.len() as int);
                    let slot = insts_before(its, k2);
                    assert(0 <= slot < prog0.len());
                    let pre = prog0[slot];
                    assert(resolved_slot(pre, tbl, progf[slot]));
                    match its[k2] {
                        ItemV::Inst(m, avs) => {
                            assert(from_parts_post(m, avs, Ok(pre)));
                            lemma_ok_unresolved_name(m, avs, pre);
                            match first_label(avs) {
                                Some(n) => {
                                    assert(tbl_get(tbl, n) matches Some(a)
                                        && Instruction::resolves_to(pre, a, progf[slot]));
                                },
                                None => {
                                    assert(progf[slot] == pre);
                                },
                            }
                        },
                        _ => {},
                    }
                }
            }
            assert forall|j: int| 0 <= j < progf.len() implies ((#[trigger] progf[j]).wf()
                && progf[j].resolved()) by {
                assert(resolved_slot(prog0[j], tbl, progf[j]));
                match prog0[j].unresolved_name() {
                    Some(n) => {
                        lemma_tbl_get_bound(tbl, n, 0x0FFF);
                    },
                    None => {},
                }
            }
        }
        Ok(out)
    }
}


impl Assembler {
    /// Encodes the finished program, one 2-byte big-endian word per
    /// instruction in source order, with no header or padding: the flat
    /// image the target loads at the program origin. A successful build
    /// leaves no unresolved address, so emission cannot fail.
    pub fn write_bin(&self) -> (r: Result<Vec<u8>, Error>)
        requires
            self.wf(),
        ensures
            r matches Ok(b) && b@ == flat_bytes(self.program()),
    {
        let ghost prog = self.program();
        let mut out: Vec<u8> = Vec::new();
        let mut i: usize = 0;
        proof {
            assert(prog.skip(0) =~= prog);
            assert(out@.add(flat_bytes(prog)) =~= flat_bytes(prog));
        }
        while i < self.instructions.len()
            invariant
                0 <= i <= prog.len(),
                prog == self.program(),
                self.wf(),
                flat_bytes(prog) =~= out@.add(flat_bytes(prog.skip(i as int))),
            decreases prog.len() - i,
        {
            proof {
                assert(prog.skip(i as int)[0] == prog[i as int]);
                assert(prog.skip(i as int).skip(1) =~= prog.skip(i + 1));
            }
            match self.instructions[i].as_bytes() {
                Ok(pair) => {
                    out.push(pair.0);
                    out.push(pair.1);
                },
                Err(e) => {
                    return Err(e);
                },
            }
            i = i + 1;
        }
        proof {
            assert(prog.skip(i as int) =~= Seq::<Instruction>::empty());
            assert(out@.add(Seq::<u8>::empty()) =~= out@);
        }
        Ok(out)
    }
}

/// The flat image is two bytes per instruction, each word standing at
/// twice its instruction's position.
pub proof fn lemma_flat_bytes_index(prog: Seq<Instruction>, j: int)
    requires
        0 <= j < prog.len(),
    ensures
        flat_bytes(prog).len() == 2 * prog.len(),
        flat_bytes(prog)[2 * j] == prog[j].spec_bytes().0,
        flat_bytes(prog)[2 * j + 1] == prog[j].spec_bytes().1,
    decreases prog.len(),
{
    lemma_flat_bytes_len(prog);
    lemma_flat_bytes_len(prog.skip(1));
    if j > 0 {
        lemma_flat_bytes_index(prog.skip(1), j - 1);
        assert(prog.skip(1)[j - 1] == prog[j]);
    }
}

/// The flat image holds two bytes per instruction.
pub proof fn lemma_flat_bytes_len(prog: Seq<Instruction>)
    ensures
        flat_bytes(prog).len() == 2 * prog.len(),
    decreases prog.len(),
{
    if prog.len() > 0 {
        lemma_flat_bytes_len(prog.skip(1));
    }
}

/// Whether `bytes` is the encoded image of the items' program under the
/// finished label table.
pub open spec fn bytes_match(items: Seq<ItemV>, tbl: Seq<(Seq<u8>, u16)>, bytes: Seq<u8>) -> bool {
    &&& bytes.len() == 2 * insts_before(items, items.len() as int)
    &&& forall|k: int|
        0 <= k < items.len() ==> ((#[trigger] items[k]) matches ItemV::Inst(m, avs) ==> (
        exists|i: Instruction|
            #[trigger] resolved_inst(m, avs, tbl, i) && i.wf() && i.resolved() && bytes[2
                * insts_before(items, k)] == i.spec_bytes().0 && bytes[2 * insts_before(items, k)
                + 1] == i.spec_bytes().1))
}

/// The whole pipeline: parses the source text, runs both passes, and
/// encodes the program. The caller receives either the complete image or
/// the run's first error, never partial output.
pub fn assemble(text: &Vec<u8>) -> (r: Result<Vec<u8>, Error>)
    ensures
        ({
            let parsed = crate::parser::items_of_text(text@);
            match parsed {
                Err(e) => r matches Err(err) && err@ == e,
                Ok(its) => match spec_pass1(its) {
                    Err(e) => r matches Err(err) && err@ == e,
                    Ok((cnt, tbl)) => match pass2_err(its, tbl) {
                        Some(e) => r matches Err(err) && err@ == e,
                        None => r matches Ok(b) && bytes_match(its, tbl, b@),
                    },
                },
            }
        }),
{
    proof {
        crate::parser::lemma_text_items_wf(text@);
    }
    let items = match crate::parser::Parser::parse(text) {
        Err(e) => {
            return Err(e);
        },
        Ok(v) => v,
    };
    let built = match Assembler::build(&items) {
        Err(e) => {
            return Err(e);
        },
        Ok(a) => a,
    };
    let ghost its = items.deep_view();
    let ghost tbl = built.tbl();
    let ghost prog = built.program();
    let bytes = match built.write_bin() {
        Err(e) => {
            return Err(e);
        },
        Ok(b) => b,
    };
    proof {
        lemma_flat_bytes_len(prog);
        assert forall|k: int| 0 <= k < its.len() implies ((#[trigger] its[k]) matches
            ItemV::Inst(m, avs) ==> (exists|i: Instruction|
            #[trigger] resolved_inst(m, avs, tbl, i) && i.wf() && i.resolved() && bytes@[2
                * insts_before(its, k)] == i.spec_bytes().0 && bytes@[2 * insts_before(its, k) + 1]
                == i.spec_bytes().1)) by {
            if its[k] is Inst {
                assert(insts_before(its, k + 1) == insts_before(its, k) + 1);
                lemma_insts_before_mono(its, 0, k);
                lemma_insts_before_mono(its, k + 1, its.len() as int);
                let slot = insts_before(its, k);
                assert(0 <= slot < prog.len());
                lemma_flat_bytes_index(prog, slot);
                match its[k] {
                    ItemV::Inst(m, avs) => {
                        assert(resolved_inst(m, avs, tbl, prog[slot]));
                        assert(prog[slot].wf() && prog[slot].resolved());
                    },
                    _ => {},
                }
            }
        }
    }
    Ok(bytes)
}

/// A label binds to the address of the next instruction emitted after its
/// definition: the program origin plus twice the number of instruction
/// items before it. The binding depends only on the definition's position,
/// never on where the label is referenced.
pub proof fn lemma_label_address(items: Seq<ItemV>, k: int, name: Seq<u8>)
    requires
        spec_pass1(items) is Ok,
        0 <= k < items.len(),
        items[k] == ItemV::Label(name),
    ensures
        spec_pass1(items) matches Ok((cnt, tbl)) && tbl_get(tbl, name) == Some(
            addr_of_count(insts_before(items, k)),
        ),
{
    lemma_pass1_ok_prefix(items, k + 1, items.len() as int);
    lemma_label_bound(items, k, name, items.len() as int);
}

/// A prefix of a successful first pass is itself successful.
pub proof fn lemma_pass1_ok_prefix(items: Seq<ItemV>, a: int, b: int)
    requires
        0 <= a <= b,
        pass1_upto(items, b) is Ok,
    ensures
        pass1_upto(items, a) is Ok,
    decreases b - a,
{
    if a < b {
        assert(pass1_upto(items, b - 1) is Ok);
        lemma_pass1_ok_prefix(items, a, b - 1);
    }
}

/// Appending a binding never changes the address of a name already bound.
pub proof fn lemma_tbl_get_push(tbl: Seq<(Seq<u8>, u16)>, p: (Seq<u8>, u16), name: Seq<u8>)
    ensures
        tbl_get(tbl.push(p), name) == (if tbl_get(tbl, name) is Some {
            tbl_get(tbl, name)
        } else if p.0 == name {
            Some(p.1)
        } else {
            None
        }),
    decreases tbl.len(),
{
    if tbl.len() == 0 {
        assert(tbl.push(p)[0] == p);
        assert(tbl.push(p).skip(1) =~= Seq::<(Seq<u8>, u16)>::empty());
        assert(tbl_get(Seq::<(Seq<u8>, u16)>::empty(), name) is None);
    } else {
        assert(tbl.push(p)[0] == tbl[0]);
        assert(tbl.push(p).skip(1) =~= tbl.skip(1).push(p));
        lemma_tbl_get_push(tbl.skip(1), p, name);
        if tbl[0].0 == name {
            assert(tbl_get(tbl.push(p), name) == Some(tbl[0].1));
            assert(tbl_get(tbl, name) == Some(tbl[0].1));
        } else {
            assert(tbl_get(tbl.push(p), name) == tbl_get(tbl.skip(1).push(p), name));
            assert(tbl_get(tbl, name) == tbl_get(tbl.skip(1), name));
        }
    }
}

/// The instruction count of a successful first pass counts the
/// instruction items.
pub proof fn lemma_pass1_count(items: Seq<ItemV>, j: int)
    requires
        0 <= j,
    ensures
        pass1_upto(items, j) matches Ok((cnt, tbl)) ==> cnt == insts_before(items, j),
    decreases j,
{
    if j > 0 {
        lemma_pass1_count(items, j - 1);
    }
}

/// Once a label is bound, every later successful first-pass prefix keeps
/// its binding.
pub proof fn lemma_label_bound(items: Seq<ItemV>, k: int, name: Seq<u8>, j: int)
    requires
        0 <= k < j <= items.len(),
        items[k] == ItemV::Label(name),
        pass1_upto(items, j) is Ok,
    ensures
        pass1_upto(items, j) matches Ok((cnt, tbl)) && tbl_get(tbl, name) == Some(
            addr_of_count(insts_before(items, k)),
        ),
    decreases j - k,
{
    if j == k + 1 {
        lemma_pass1_count(items, k);
        match pass1_upto(items, k) {
            Ok((cnt, tbl)) => {
                lemma_tbl_get_push(tbl, (name, addr_of_count(cnt)), name);
            },
            Err(_) => {},
        }
    } else {
        lemma_pass1_ok_prefix(items, j - 1, j);
        lemma_label_bound(items, k, name, j - 1);
        match pass1_upto(items, j - 1) {
            Ok((cnt, tbl)) => {
                match items[j - 1] {
                    ItemV::Label(other) => {
                        lemma_tbl_get_push(tbl, (other, addr_of_count(cnt)), name);
                    },
                    _ => {},
                }
            },
            Err(_) => {},
        }
    }
}

/// Label resolution is order-independent: two references to the same
/// label, wherever they stand relative to its definition, resolve to the
/// same address — the one the table binds for that label.
pub proof fn lemma_resolution_order_independent(
    items: Seq<ItemV>,
    prog: Seq<Instruction>,
    tbl: Seq<(Seq<u8>, u16)>,
    k1: int,
    k2: int,
    name: Seq<u8>,
)
    requires
        build_ok(items, prog, tbl),
        0 <= k1 < items.len(),
        0 <= k2 < items.len(),
        items[k1] matches ItemV::Inst(m1, avs1) && first_label(avs1) == Some(name),
        items[k2] matches ItemV::Inst(m2, avs2) && first_label(avs2) == Some(name),
    ensures
        tbl_get(tbl, name) matches Some(a) && prog[insts_before(items, k1)].addr_val() == a
            && prog[insts_before(items, k2)].addr_val() == a,
{
    lemma_reference_resolves(items, prog, tbl, k1, name);
    lemma_reference_resolves(items, prog, tbl, k2, name);
}

/// Every reference to a label resolves to the address the table binds.
pub proof fn lemma_reference_resolves(
    items: Seq<ItemV>,
    prog: Seq<Instruction>,
    tbl: Seq<(Seq<u8>, u16)>,
    k: int,
    name: Seq<u8>,
)
    requires
        build_ok(items, prog, tbl),
        0 <= k < items.len(),
        items[k] matches ItemV::Inst(m, avs) && first_label(avs) == Some(name),
    ensures
        tbl_get(tbl, name) matches Some(a) && prog[insts_before(items, k)].addr_val() == a,
{
    match items[k] {
        ItemV::Inst(m, avs) => {
            assert(resolved_inst(m, avs, tbl, prog[insts_before(items, k)]));
            let post = prog[insts_before(items, k)];
            match tbl_get(tbl, name) {
                Some(a) => {
                    let i0 = choose|i0: Instruction|
                        #[trigger] from_parts_post(m, avs, Ok(i0)) && Instruction::resolves_to(
                            i0,
                            a,
                            post,
                        );
                    lemma_ok_unresolved_name(m, avs, i0);
                },
                None => {},
            }
        },
        _ => {},
    }
}

} // verus!
