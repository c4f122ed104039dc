//! The decoded program and the execution cursor.
//!
//! A `Machine` owns the P-code groups and the disassembly records of the
//! sections decoded so far, keyed by instruction address, together with
//! the register and space identity tables.  A `Cursor` walks the groups
//! of one function in ascending address order, retargetable by branches.

use vstd::prelude::*;

verus! {

use std::collections::HashMap;
use crate::pcode::{AddrSpace, DisassemblyInstruction, EmuError, PCode, PCodeView, VarnodeData};
use crate::binary::{lookup_symbols, Binary, Symbol};
use crate::emulator::{can_write, lookup_register, mirror, varnode_written, write_err, EmuView,
    Emulator};
use crate::bignum::BigUnsigned;
use vstd::pervasive::VecAdditionalExecFns;

broadcast use vstd::std_specs::hash::group_hash_axioms;

/// The groups of a machine as mathematical values.
pub open spec fn group_views(g: Seq<PCode>) -> Seq<PCodeView> {
    g.map_values(|p: PCode| p@)
}

/// A pcode table as a map from address to the group's mathematical form.
pub open spec fn table_view(t: Map<u64, Vec<PCode>>) -> Map<u64, Seq<PCodeView>> {
    t.map_values(|g: Vec<PCode>| group_views(g@))
}

/// One operation record appended to its address's group.
pub open spec fn group_insert(
    t: Map<u64, Seq<PCodeView>>,
    p: PCodeView,
) -> Map<u64, Seq<PCodeView>> {
    let old_group = if t.dom().contains(p.address) {
        t[p.address]
    } else {
        Seq::empty()
    };
    t.insert(p.address, old_group.push(p))
}

/// A list of operation records appended to their groups in order.
pub open spec fn grouped(t: Map<u64, Seq<PCodeView>>, ps: Seq<PCodeView>) -> Map<
    u64,
    Seq<PCodeView>,
>
    decreases ps.len(),
{
    if ps.len() == 0 {
        t
    } else {
        grouped(group_insert(t, ps[0]), ps.skip(1))
    }
}

/// Whether every record in every group carries the group's own address.
pub open spec fn coherent(t: Map<u64, Seq<PCodeView>>) -> bool {
    forall|a: u64, i: int|
        t.dom().contains(a) && 0 <= i < t[a].len() ==> (#[trigger] t[a][i]).address == a
}

/// Appending records keeps the groups coherent.
pub proof fn lemma_grouped_coherent(t: Map<u64, Seq<PCodeView>>, ps: Seq<PCodeView>)
    requires
        coherent(t),
    ensures
        coherent(grouped(t, ps)),
    decreases ps.len(),
{
    if ps.len() > 0 {
        assert(coherent(group_insert(t, ps[0])));
        lemma_grouped_coherent(group_insert(t, ps[0]), ps.skip(1));
    }
}

/// Whether the instruction records stand in strictly ascending address
/// order.
pub open spec fn insns_sorted(s: Seq<DisassemblyInstruction>) -> bool {
    forall|i: int, j: int|
        0 <= i < j < s.len() ==> (#[trigger] s[i]).address < (#[trigger] s[j]).address
}

/// Whether some record carries this address.
pub open spec fn has_insn(s: Seq<DisassemblyInstruction>, a: u64) -> bool {
    exists|i: int| 0 <= i < s.len() && (#[trigger] s[i]).address == a
}

/// The index the address belongs at: the number of records below it.
pub open spec fn insert_pos(s: Seq<DisassemblyInstruction>, a: u64) -> int
    decreases s.len(),
{
    if s.len() == 0 {
        0
    } else if s[0].address >= a {
        0
    } else {
        1 + insert_pos(s.skip(1), a)
    }
}

/// The table after one record is placed: replacing the record at its
/// address or standing at its ordered position.
pub open spec fn insn_inserted(
    s: Seq<DisassemblyInstruction>,
    x: DisassemblyInstruction,
) -> Seq<DisassemblyInstruction> {
    let k = insert_pos(s, x.address);
    if k < s.len() && s[k].address == x.address {
        s.update(k, x)
    } else {
        s.take(k) + seq![x] + s.skip(k)
    }
}

/// The table after a list of records is placed in order.
pub open spec fn insns_merged(
    s: Seq<DisassemblyInstruction>,
    xs: Seq<DisassemblyInstruction>,
) -> Seq<DisassemblyInstruction>
    decreases xs.len(),
{
    if xs.len() == 0 {
        s
    } else {
        insns_merged(insn_inserted(s, xs[0]), xs.skip(1))
    }
}

/// Where the insertion point lies: all records below it sit at lower
/// addresses, all from it on at this address or higher.
pub proof fn lemma_insert_pos(s: Seq<DisassemblyInstruction>, a: u64)
    ensures
        0 <= insert_pos(s, a) <= s.len(),
        forall|j: int| 0 <= j < insert_pos(s, a) ==> (#[trigger] s[j]).address < a,
        forall|j: int| insert_pos(s, a) <= j < s.len() ==> (#[trigger] s[j]).address >= a ||
            exists|j2: int| insert_pos(s, a) <= j2 < j && (#[trigger] s[j2]).address >= a,
    decreases s.len(),
{
    if s.len() > 0 && s[0].address < a {
        lemma_insert_pos(s.skip(1), a);
        assert forall|j: int| 0 <= j < insert_pos(s, a) implies (#[trigger] s[j]).address
            < a by {
            if j > 0 {
                assert(s[j] == s.skip(1)[j - 1]);
            }
        }
        assert forall|j: int| insert_pos(s, a) <= j < s.len() implies (#[trigger] s[j]).address
            >= a || exists|j2: int| insert_pos(s, a) <= j2 < j && (#[trigger] s[j2]).address
            >= a by {
            let k1 = insert_pos(s.skip(1), a);
            assert(s[j] == s.skip(1)[j - 1]);
            if s.skip(1)[j - 1].address >= a {
            } else {
                let j2 = choose|j2: int|
                    k1 <= j2 < j - 1 && (#[trigger] s.skip(1)[j2]).address >= a;
                assert(s[j2 + 1] == s.skip(1)[j2]);
            }
        }
    }
}

/// On a sorted table the insertion point is sharp: everything from it on
/// (bar a matching record) sits strictly above the address.
pub proof fn lemma_insert_pos_sorted(s: Seq<DisassemblyInstruction>, a: u64)
    requires
        insns_sorted(s),
    ensures
        0 <= insert_pos(s, a) <= s.len(),
        forall|j: int| 0 <= j < insert_pos(s, a) ==> (#[trigger] s[j]).address < a,
        forall|j: int| insert_pos(s, a) <= j < s.len() ==> (#[trigger] s[j]).address >= a,
{
    lemma_insert_pos(s, a);
    let k = insert_pos(s, a);
    assert forall|j: int| k <= j < s.len() implies (#[trigger] s[j]).address >= a by {
        if s[j].address < a {
            let j2 = choose|j2: int| k <= j2 < j && (#[trigger] s[j2]).address >= a;
            assert(s[j2].address < s[j].address);
        }
    }
}

/// Placing one record keeps the table sorted and grows its address set by
/// the record's address.
pub proof fn lemma_inserted_sorted(s: Seq<DisassemblyInstruction>, x: DisassemblyInstruction)
    requires
        insns_sorted(s),
    ensures
        insns_sorted(insn_inserted(s, x)),
        forall|a: u64| has_insn(insn_inserted(s, x), a) <==> has_insn(s, a) || a == x.address,
{
    lemma_insert_pos_sorted(s, x.address);
    let k = insert_pos(s, x.address);
    let t = insn_inserted(s, x);
    if k < s.len() && s[k].address == x.address {
        assert forall|a: u64| has_insn(t, a) implies has_insn(s, a) || a == x.address by {
            let i = choose|i: int| 0 <= i < t.len() && (#[trigger] t[i]).address == a;
            if i != k {
                assert(s[i].address == a);
            }
        }
        assert forall|a: u64| has_insn(s, a) || a == x.address implies has_insn(t, a) by {
            if a == x.address {
                assert(t[k].address == a);
            } else {
                let i = choose|i: int| 0 <= i < s.len() && (#[trigger] s[i]).address == a;
                assert(t[i].address == a);
            }
        }
    } else {
        assert(forall|j: int| 0 <= j < k ==> t[j] == s[j]);
        assert(t[k] == x);
        assert(forall|j: int| k < j < t.len() ==> t[j] == s[j - 1]);
        assert forall|i: int, j: int| 0 <= i < j < t.len() implies (#[trigger] t[i]).address < (
        #[trigger] t[j]).address by {
            if i == k {
                assert(s[j - 1].address >= x.address);
                assert(s[j - 1].address != x.address);
            } else if j == k {
                assert(s[i].address < x.address);
            }
        }
        assert forall|a: u64| has_insn(t, a) implies has_insn(s, a) || a == x.address by {
            let i = choose|i: int| 0 <= i < t.len() && (#[trigger] t[i]).address == a;
            if i < k {
                assert(s[i].address == a);
            } else if i > k {
                assert(s[i - 1].address == a);
            }
        }
        assert forall|a: u64| has_insn(s, a) || a == x.address implies has_insn(t, a) by {
            if a == x.address {
                assert(t[k].address == a);
            } else {
                let i = choose|i: int| 0 <= i < s.len() && (#[trigger] s[i]).address == a;
                if i < k {
                    assert(t[i].address == a);
                } else {
                    assert(t[i + 1].address == a);
                }
            }
        }
    }
}

/// Placing a list of records keeps the table sorted and grows its address
/// set by theirs.
pub proof fn lemma_merged_sorted(
    s: Seq<DisassemblyInstruction>,
    xs: Seq<DisassemblyInstruction>,
)
    requires
        insns_sorted(s),
    ensures
        insns_sorted(insns_merged(s, xs)),
        forall|a: u64|
            has_insn(insns_merged(s, xs), a) <==> has_insn(s, a) || exists|i: int|
                0 <= i < xs.len() && (#[trigger] xs[i]).address == a,
    decreases xs.len(),
{
    if xs.len() > 0 {
        lemma_inserted_sorted(s, xs[0]);
        lemma_merged_sorted(insn_inserted(s, xs[0]), xs.skip(1));
        let ins = insn_inserted(s, xs[0]);
        assert forall|a: u64|
            has_insn(insns_merged(s, xs), a) <==> has_insn(s, a) || exists|i: int|
                0 <= i < xs.len() && (#[trigger] xs[i]).address == a by {
            if has_insn(insns_merged(s, xs), a) {
                if has_insn(ins, a) {
                    if !has_insn(s, a) {
                        assert(a == xs[0].address);
                        assert(0 <= 0 < xs.len() && xs[0].address == a);
                    }
                } else {
                    let i = choose|i: int|
                        0 <= i < xs.skip(1).len() && (#[trigger] xs.skip(1)[i]).address == a;
                    assert(xs[i + 1].address == a);
                }
            }
            if has_insn(s, a) {
                assert(has_insn(ins, a));
            } else if exists|i: int| 0 <= i < xs.len() && (#[trigger] xs[i]).address == a {
                let i = choose|i: int| 0 <= i < xs.len() && (#[trigger] xs[i]).address == a;
                if i == 0 {
                    assert(has_insn(ins, a));
                } else {
                    assert(xs.skip(1)[i - 1].address == a);
                    assert(has_insn(insns_merged(ins, xs.skip(1)), a));
                }
            }
        }
    }
}

/// Whether a name stands in the list of loaded sections.
pub open spec fn section_loaded(sections: Seq<String>, name: Seq<char>) -> bool {
    exists|i: int| 0 <= i < sections.len() && (#[trigger] sections[i])@ == name
}

/// The decoded program: loaded section names, P-code groups and
/// disassembly records by address, and the translator's register and
/// space identity tables.
pub struct Machine {
    pub sections: Vec<String>,
    pub pcodes: HashMap<u64, Vec<PCode>>,
    pub instructions: Vec<DisassemblyInstruction>,
    pub register_names: Vec<(VarnodeData, String)>,
    pub space_ids: Vec<(u64, AddrSpace)>,
}

impl Machine {
    /// The pcode table as a mathematical map.
    pub open spec fn groups(&self) -> Map<u64, Seq<PCodeView>> {
        table_view(self.pcodes@)
    }

    /// The tables a machine keeps in order: records sorted by address and
    /// groups coherent with their keys.
    pub open spec fn wf(&self) -> bool {
        &&& insns_sorted(self.instructions@)
        &&& coherent(self.groups())
    }

    /// An empty machine around the translator's register and space
    /// identity tables.
    pub fn new(register_names: Vec<(VarnodeData, String)>, space_ids: Vec<(u64, AddrSpace)>) -> (r:
        Self)
        ensures
            r.wf(),
            r.sections@.len() == 0,
            r.groups() == Map::<u64, Seq<PCodeView>>::empty(),
            r.instructions@.len() == 0,
            r.register_names@ == register_names@,
            r.space_ids@ == space_ids@,
    {
        let r = Machine {
            sections: Vec::new(),
            pcodes: HashMap::new(),
            instructions: Vec::new(),
            register_names,
            space_ids,
        };
        proof {
            assert(r.groups() =~= Map::<u64, Seq<PCodeView>>::empty());
        }
        r
    }

    /// Record one decoded section: append each operation record to the
    /// group at its address, preserving the translator's order, and place
    /// each disassembly record at its address.  A section already loaded
    /// is left alone.
    pub fn load_section(
        &mut self,
        name: String,
        pcodes: Vec<PCode>,
        instructions: Vec<DisassemblyInstruction>,
    )
        requires
            old(self).wf(),
        ensures
            final(self).wf(),
            final(self).register_names@ == old(self).register_names@,
            final(self).space_ids@ == old(self).space_ids@,
            section_loaded(old(self).sections@, name@) ==> {
                &&& final(self).sections@ == old(self).sections@
                &&& final(self).groups() == old(self).groups()
                &&& final(self).instructions@ == old(self).instructions@
            },
            !section_loaded(old(self).sections@, name@) ==> {
                &&& final(self).sections@.len() == old(self).sections@.len() + 1
                &&& final(self).sections@[old(self).sections@.len() as int]@ == name@
                &&& forall|i: int|
                    0 <= i < old(self).sections@.len() ==> final(self).sections@[i] == old(
                        self,
                    ).sections@[i]
                &&& final(self).groups() == grouped(old(self).groups(), group_views(pcodes@))
                &&& final(self).instructions@ == insns_merged(
                    old(self).instructions@,
                    instructions@,
                )
            },
    {
        let mut i: usize = 0;
        let n = self.sections.len();
        while i < n
            invariant
                0 <= i <= n,
                n == self.sections@.len(),
                old(self).wf(),
                self.sections@ == old(self).sections@,
                self.instructions@ == old(self).instructions@,
                self.pcodes@ == old(self).pcodes@,
                self.register_names@ == old(self).register_names@,
                self.space_ids@ == old(self).space_ids@,
                forall|j: int| 0 <= j < i ==> (#[trigger] self.sections@[j])@ != name@,
            decreases n - i,
        {
            if self.sections[i].eq(&name) {
                return ;
            }
            i = i + 1;
        }
        let ghost start = *self;
        let npc = pcodes.len();
        let mut k: usize = 0;
        proof {
            assert(group_views(pcodes@).skip(0) =~= group_views(pcodes@));
        }
        while k < npc
            invariant
                0 <= k <= npc,
                npc == pcodes@.len(),
                self.sections@ == start.sections@,
                self.instructions@ == start.instructions@,
                self.register_names@ == start.register_names@,
                self.space_ids@ == start.space_ids@,
                coherent(self.groups()),
                grouped(self.groups(), group_views(pcodes@).skip(k as int)) == grouped(
                    start.groups(),
                    group_views(pcodes@),
                ),
            decreases npc - k,
        {
            let p = pcodes[k].clone();
            let addr = p.address;
            let ghost before = self.groups();
            let mut group = match self.pcodes.remove(&addr) {
                Some(g) => g,
                None => Vec::new(),
            };
            group.push(p);
            self.pcodes.insert(addr, group);
            proof {
                let pv = group_views(pcodes@)[k as int];
                assert(pv == pcodes@[k as int]@);
                assert(self.groups() =~~= group_insert(before, pv));
                assert(group_views(pcodes@).skip(k as int).skip(1) =~= group_views(
                    pcodes@,
                ).skip(k + 1));
                assert(group_views(pcodes@).skip(k as int)[0] == pv);
                assert(coherent(self.groups()));
            }
            k = k + 1;
        }
        proof {
            assert(group_views(pcodes@).skip(npc as int) =~= Seq::<PCodeView>::empty());
        }
        let nin = instructions.len();
        let mut j: usize = 0;
        let ghost mid_insns = self.instructions@;
        proof {
            assert(instructions@.skip(0) =~= instructions@);
        }
        while j < nin
            invariant
                0 <= j <= nin,
                nin == instructions@.len(),
                self.sections@ == start.sections@,
                self.register_names@ == start.register_names@,
                self.space_ids@ == start.space_ids@,
                self.groups() == grouped(start.groups(), group_views(pcodes@)),
                coherent(self.groups()),
                insns_sorted(self.instructions@),
                insns_merged(self.instructions@, instructions@.skip(j as int)) == insns_merged(
                    mid_insns,
                    instructions@,
                ),
            decreases nin - j,
        {
            let x = instructions[j].clone();
            let ghost before = self.instructions@;
            proof {
                lemma_insert_pos_sorted(before, x.address);
                lemma_inserted_sorted(before, x);
                assert(instructions@.skip(j as int).skip(1) =~= instructions@.skip(j + 1));
                assert(instructions@.skip(j as int)[0] == instructions@[j as int]);
            }
            let pos = self.find_insert_pos(x.address);
            if pos < self.instructions.len() && self.instructions[pos].address == x.address {
                self.instructions.set(pos, x);
                proof {
                    assert(self.instructions@ =~= insn_inserted(before, instructions@[j as int]));
                }
            } else {
                self.instructions.insert(pos, x);
                proof {
                    assert(self.instructions@ =~= insn_inserted(before, instructions@[j as int]));
                }
            }
            j = j + 1;
        }
        proof {
            assert(instructions@.skip(nin as int) =~= Seq::<DisassemblyInstruction>::empty());
        }
        self.sections.push(name);
    }

    /// The ordered position of an address in the instruction table.
    fn find_insert_pos(&self, a: u64) -> (r: usize)
        ensures
            r as int == insert_pos(self.instructions@, a),
    {
        let n = self.instructions.len();
        let mut i: usize = 0;
        proof {
            assert(self.instructions@.skip(0) =~= self.instructions@);
        }
        while i < n
            invariant
                0 <= i <= n,
                n == self.instructions@.len(),
                insert_pos(self.instructions@, a) == i + insert_pos(
                    self.instructions@.skip(i as int),
                    a,
                ),
                forall|j: int| 0 <= j < i ==> (#[trigger] self.instructions@[j]).address < a,
            decreases n - i,
        {
            proof {
                assert(self.instructions@.skip(i as int).skip(1) =~= self.instructions@.skip(
                    i + 1,
                ));
                assert(self.instructions@.skip(i as int)[0] == self.instructions@[i as int]);
            }
            if self.instructions[i].address >= a {
                return i;
            }
            i = i + 1;
        }
        n
    }
}


/// The contents of the three spaces before any write.
pub open spec fn empty_view() -> EmuView {
    EmuView {
        unique: Map::<u64, u8>::empty(),
        register: Map::<u64, u8>::empty(),
        ram: Map::<u64, u8>::empty(),
    }
}

/// The group at an address, empty where none is recorded.
pub open spec fn group_at(m: Machine, a: u64) -> Seq<PCodeView> {
    if m.groups().dom().contains(a) {
        m.groups()[a]
    } else {
        Seq::empty()
    }
}

/// The lowest instruction address strictly above `a`.
pub open spec fn first_insn_above(s: Seq<DisassemblyInstruction>, a: u64) -> Option<u64>
    decreases s.len(),
{
    if s.len() == 0 {
        None
    } else if s[0].address > a {
        Some(s[0].address)
    } else {
        first_insn_above(s.skip(1), a)
    }
}

/// What `first_insn_above` finds on a sorted table: the least instruction
/// address above `a`, or nothing where none lies above it.
pub proof fn lemma_first_insn_above(s: Seq<DisassemblyInstruction>, a: u64)
    requires
        insns_sorted(s),
    ensures
        match first_insn_above(s, a) {
            Some(b) => b > a && has_insn(s, b) && forall|i: int|
                0 <= i < s.len() && (#[trigger] s[i]).address > a ==> s[i].address >= b,
            None => forall|i: int| 0 <= i < s.len() ==> (#[trigger] s[i]).address <= a,
        },
    decreases s.len(),
{
    if s.len() == 0 {
    } else if s[0].address > a {
        assert(s[0].address == first_insn_above(s, a)->0);
    } else {
        lemma_first_insn_above(s.skip(1), a);
        match first_insn_above(s.skip(1), a) {
            Some(b) => {
                let i0 = choose|i: int|
                    0 <= i < s.skip(1).len() && (#[trigger] s.skip(1)[i]).address == b;
                assert(s[i0 + 1].address == b);
                assert forall|i: int|
                    0 <= i < s.len() && (#[trigger] s[i]).address > a implies s[i].address
                    >= b by {
                    if i > 0 {
                        assert(s.skip(1)[i - 1].address == s[i].address);
                    }
                }
            },
            None => {
                assert forall|i: int| 0 <= i < s.len() implies (#[trigger] s[i]).address
                    <= a by {
                    if i > 0 {
                        assert(s.skip(1)[i - 1].address == s[i].address);
                    }
                }
            },
        }
    }
}

/// The highest instruction address in `[lo, hi)`, read off a sorted table
/// from its top.
pub open spec fn last_insn_in(s: Seq<DisassemblyInstruction>, lo: u64, hi: int) -> Option<u64>
    decreases s.len(),
{
    if s.len() == 0 {
        None
    } else if s.last().address >= hi {
        last_insn_in(s.drop_last(), lo, hi)
    } else if s.last().address >= lo {
        Some(s.last().address)
    } else {
        None
    }
}

/// What `last_insn_in` finds on a sorted table: the greatest instruction
/// address in the range, or nothing where the range holds none.
pub proof fn lemma_last_insn_in(s: Seq<DisassemblyInstruction>, lo: u64, hi: int)
    requires
        insns_sorted(s),
    ensures
        match last_insn_in(s, lo, hi) {
            Some(e) => lo <= e < hi && has_insn(s, e) && forall|i: int|
                0 <= i < s.len() && lo <= (#[trigger] s[i]).address < hi ==> s[i].address <= e,
            None => forall|i: int| 0 <= i < s.len() ==> !(lo <= (#[trigger] s[i]).address < hi),
        },
    decreases s.len(),
{
    if s.len() == 0 {
    } else if s.last().address >= hi {
        lemma_last_insn_in(s.drop_last(), lo, hi);
        match last_insn_in(s.drop_last(), lo, hi) {
            Some(e) => {
                let i0 = choose|i: int|
                    0 <= i < s.drop_last().len() && (#[trigger] s.drop_last()[i]).address == e;
                assert(s[i0].address == e);
                assert forall|i: int|
                    0 <= i < s.len() && lo <= (#[trigger] s[i]).address < hi implies s[i].address
                    <= e by {
                    assert(i < s.len() - 1);
                    assert(s.drop_last()[i].address == s[i].address);
                }
            },
            None => {
                assert forall|i: int| 0 <= i < s.len() implies !(lo <= (
                #[trigger] s[i]).address < hi) by {
                    if i < s.len() - 1 {
                        assert(s.drop_last()[i].address == s[i].address);
                    }
                }
            },
        }
    } else if s.last().address >= lo {
        assert(s[s.len() - 1].address == s.last().address);
    } else {
        assert forall|i: int| 0 <= i < s.len() implies !(lo <= (#[trigger] s[i]).address
            < hi) by {
            if i < s.len() - 1 {
                assert(s[i].address < s.last().address);
            }
        }
    }
}

/// Whether every instruction from `lo` through `end` has a recorded
/// group, `lo` itself included.
pub open spec fn range_covered(m: Machine, lo: u64, end: u64) -> bool {
    &&& m.groups().dom().contains(lo)
    &&& forall|b: u64|
        has_insn(m.instructions@, b) && lo < b <= end ==> #[trigger] m.groups().dom().contains(b)
}

/// Whether a branch may land at `a`: an instruction stands there with a
/// recorded group, and so does everything from it through `end`.
pub open spec fn addr_ok(m: Machine, end: u64, a: u64) -> bool {
    &&& has_insn(m.instructions@, a)
    &&& a <= end
    &&& range_covered(m, a, end)
}

/// The execution cursor of one run: the current instruction address, the
/// index inside its group, and the terminal instruction address.
#[derive(Clone, Copy, Debug, PartialEq, Eq, Structural)]
pub struct Cursor {
    pub address: u64,
    pub index: usize,
    pub end_address: u64,
}

impl Cursor {
    /// The invariant a cursor keeps against its machine: the machine's
    /// tables are in order, the terminal address is an instruction, the
    /// current address has a group the index lies within, and every
    /// instruction from here through the terminal address has a group.
    pub open spec fn wf(self, m: Machine) -> bool {
        &&& m.wf()
        &&& self.address <= self.end_address
        &&& has_insn(m.instructions@, self.end_address)
        &&& m.groups().dom().contains(self.address)
        &&& self.index <= group_at(m, self.address).len()
        &&& forall|b: u64|
            has_insn(m.instructions@, b) && self.address < b <= self.end_address
                ==> #[trigger] m.groups().dom().contains(b)
    }
}

/// The position of the next operation a cursor yields: the group and
/// index it stands at, skipping exhausted and empty groups forward, or
/// nothing at the end of the run.
pub open spec fn cursor_next_spec(m: Machine, c: Cursor) -> Option<(u64, int)>
    decreases
            (if c.address <= c.end_address {
                c.end_address - c.address
            } else {
                0
            }),
{
    if c.index < group_at(m, c.address).len() {
        Some((c.address, c.index as int))
    } else if c.address >= c.end_address {
        None
    } else {
        match first_insn_above(m.instructions@, c.address) {
            None => None,
            Some(b) => {
                if b > c.end_address || b <= c.address {
                    None
                } else {
                    cursor_next_spec(
                        m,
                        Cursor { address: b, index: 0, end_address: c.end_address },
                    )
                }
            },
        }
    }
}

/// Where a yielded position lies: between the cursor and its terminal
/// address, inside a recorded group.
pub proof fn lemma_cursor_next_in_range(m: Machine, c: Cursor)
    requires
        c.wf(m),
        cursor_next_spec(m, c) is Some,
    ensures
        ({
            let (a, i) = cursor_next_spec(m, c)->0;
            &&& c.address <= a <= c.end_address
            &&& m.groups().dom().contains(a)
            &&& 0 <= i < group_at(m, a).len()
            &&& Cursor { address: a, index: i as usize, end_address: c.end_address }.wf(m)
        }),
    decreases
            (if c.address <= c.end_address {
                c.end_address - c.address
            } else {
                0
            }),
{
    if c.index < group_at(m, c.address).len() {
    } else if c.address >= c.end_address {
    } else {
        lemma_first_insn_above(m.instructions@, c.address);
        match first_insn_above(m.instructions@, c.address) {
            None => {
                let ie = choose|i: int|
                    0 <= i < m.instructions@.len() && (#[trigger] m.instructions@[i]).address
                        == c.end_address;
                assert(false);
            },
            Some(b) => {
                assert(b <= c.end_address);
                if b > c.end_address || b <= c.address {
                } else {
                    let c2 = Cursor { address: b, index: 0, end_address: c.end_address };
                    assert(c2.wf(m));
                    lemma_cursor_next_in_range(m, c2);
                }
            },
        }
    }
}

/// Law: a cursor standing inside a function's byte range only yields
/// operations at addresses inside that range.
pub proof fn lemma_yield_stays_in_function(m: Machine, c: Cursor, start: u64, len: nat)
    requires
        c.wf(m),
        start <= c.address,
        c.end_address < start + len,
        cursor_next_spec(m, c) is Some,
    ensures
        ({
            let (a, i) = cursor_next_spec(m, c)->0;
            start <= a < start + len
        }),
{
    lemma_cursor_next_in_range(m, c);
}

/// Law: however a cursor is driven inside one function, every address it
/// yields lies in the function's byte range, so the distinct yielded
/// addresses are no more than the range's length.
pub proof fn lemma_distinct_addresses_bounded(addrs: Set<int>, start: int, len: nat)
    requires
        forall|a: int| addrs.contains(a) ==> start <= a < start + len,
    ensures
        addrs.finite(),
        addrs.len() <= len,
{
    let range = vstd::set_lib::set_int_range(start, start + len);
    vstd::set_lib::lemma_int_range(start, start + len);
    assert(addrs.subset_of(range));
    vstd::set_lib::lemma_len_subset(addrs, range);
}


impl Machine {
    /// The lowest instruction address strictly above `a`.
    fn next_insn_above(&self, a: u64) -> (r: Option<u64>)
        ensures
            r == first_insn_above(self.instructions@, a),
    {
        let n = self.instructions.len();
        let mut i: usize = 0;
        proof {
            assert(self.instructions@.skip(0) =~= self.instructions@);
        }
        while i < n
            invariant
                0 <= i <= n,
                n == self.instructions@.len(),
                first_insn_above(self.instructions@, a) == first_insn_above(
                    self.instructions@.skip(i as int),
                    a,
                ),
            decreases n - i,
        {
            proof {
                assert(self.instructions@.skip(i as int).skip(1) =~= self.instructions@.skip(
                    i + 1,
                ));
                assert(self.instructions@.skip(i as int)[0] == self.instructions@[i as int]);
            }
            if self.instructions[i].address > a {
                return Some(self.instructions[i].address);
            }
            i = i + 1;
        }
        None
    }

    /// Whether a section of that name has been loaded.
    pub fn is_section_loaded(&self, name: &String) -> (r: bool)
        ensures
            r == section_loaded(self.sections@, name@),
    {
        let n = self.sections.len();
        let mut i: usize = 0;
        while i < n
            invariant
                0 <= i <= n,
                n == self.sections@.len(),
                forall|j: int| 0 <= j < i ==> (#[trigger] self.sections@[j])@ != name@,
            decreases n - i,
        {
            if self.sections[i].eq(name) {
                return true;
            }
            i = i + 1;
        }
        false
    }

    /// The highest instruction address in `[lo, hi)`.
    fn find_last_insn_in(&self, lo: u64, hi: u64) -> (r: Option<u64>)
        ensures
            r == last_insn_in(self.instructions@, lo, hi as int),
    {
        let mut i: usize = self.instructions.len();
        proof {
            assert(self.instructions@.take(i as int) =~= self.instructions@);
        }
        while i > 0
            invariant
                0 <= i <= self.instructions@.len(),
                last_insn_in(self.instructions@, lo, hi as int) == last_insn_in(
                    self.instructions@.take(i as int),
                    lo,
                    hi as int,
                ),
            decreases i,
        {
            i = i - 1;
            proof {
                assert(self.instructions@.take(i + 1).drop_last() =~= self.instructions@.take(
                    i as int,
                ));
                assert(self.instructions@.take(i + 1).last() == self.instructions@[i as int]);
            }
            let a = self.instructions[i].address;
            if a < hi {
                if a >= lo {
                    return Some(a);
                } else {
                    return None;
                }
            }
        }
        proof {
            assert(self.instructions@.take(0) =~= Seq::<DisassemblyInstruction>::empty());
        }
        None
    }

    /// Whether every instruction from `lo` through `end` has a recorded
    /// group, `lo` itself included.
    fn check_range_covered(&self, lo: u64, end: u64) -> (r: bool)
        ensures
            r == range_covered(*self, lo, end),
    {
        if !self.pcodes.contains_key(&lo) {
            proof {
                assert(!self.groups().dom().contains(lo));
            }
            return false;
        }
        let n = self.instructions.len();
        let mut i: usize = 0;
        while i < n
            invariant
                0 <= i <= n,
                n == self.instructions@.len(),
                self.groups().dom().contains(lo),
                forall|j: int|
                    0 <= j < i ==> {
                        let b = (#[trigger] self.instructions@[j]).address;
                        !(lo < b <= end) || self.groups().dom().contains(b)
                    },
            decreases n - i,
        {
            let b = self.instructions[i].address;
            if lo < b && b <= end {
                if !self.pcodes.contains_key(&b) {
                    proof {
                        assert(has_insn(self.instructions@, b));
                        assert(!self.groups().dom().contains(b));
                    }
                    return false;
                }
            }
            i = i + 1;
        }
        proof {
            assert forall|b: u64|
                has_insn(self.instructions@, b) && lo < b <= end implies #[trigger] self.groups(
            ).dom().contains(b) by {
                let j = choose|j: int|
                    0 <= j < self.instructions@.len() && (#[trigger] self.instructions@[j]).address
                        == b;
            }
        }
        true
    }

    /// A copy of the register table.
    fn clone_registers(&self) -> (r: Vec<(VarnodeData, String)>)
        ensures
            r@ == self.register_names@,
    {
        let n = self.register_names.len();
        let mut out: Vec<(VarnodeData, String)> = Vec::new();
        let mut i: usize = 0;
        while i < n
            invariant
                0 <= i <= n,
                n == self.register_names@.len(),
                out@ == self.register_names@.take(i as int),
            decreases n - i,
        {
            let node = self.register_names[i].0;
            let name = self.register_names[i].1.clone();
            out.push((node, name));
            proof {
                assert(out@ =~= self.register_names@.take(i + 1));
            }
            i = i + 1;
        }
        proof {
            assert(self.register_names@.take(n as int) =~= self.register_names@);
        }
        out
    }

    /// A copy of the space identity table.
    fn clone_space_ids(&self) -> (r: Vec<(u64, AddrSpace)>)
        ensures
            r@ == self.space_ids@,
    {
        let n = self.space_ids.len();
        let mut out: Vec<(u64, AddrSpace)> = Vec::new();
        let mut i: usize = 0;
        while i < n
            invariant
                0 <= i <= n,
                n == self.space_ids@.len(),
                out@ == self.space_ids@.take(i as int),
            decreases n - i,
        {
            out.push(self.space_ids[i]);
            proof {
                assert(out@ =~= self.space_ids@.take(i + 1));
            }
            i = i + 1;
        }
        proof {
            assert(self.space_ids@.take(n as int) =~= self.space_ids@);
        }
        out
    }

    /// The section a symbol's code lies in, where it is not yet loaded:
    /// the driver decodes that section and hands it to `load_section`.
    /// The symbol must have exactly one definition.
    pub fn needs_section(&self, binary: &Binary, symbol: &String) -> (r: Result<
        Option<String>,
        EmuError,
    >)
        ensures
            match r {
                Ok(opt) => {
                    let idx = lookup_symbols(binary.symbols@, symbol@)->0;
                    &&& lookup_symbols(binary.symbols@, symbol@) is Some
                    &&& binary.symbols@[idx].1@.len() == 1
                    &&& match opt {
                        Some(n) => n@ == binary.symbols@[idx].1@[0].section@ && !section_loaded(
                            self.sections@,
                            n@,
                        ),
                        None => section_loaded(
                            self.sections@,
                            binary.symbols@[idx].1@[0].section@,
                        ),
                    }
                },
                Err(e) => {
                    &&& e == EmuError::DecodeMismatch
                    &&& (lookup_symbols(binary.symbols@, symbol@) is None || binary.symbols@[
                        lookup_symbols(binary.symbols@, symbol@)->0
                    ].1@.len() != 1)
                },
            },
    {
        let idx = match binary.find_symbols(symbol) {
            Some(i) => i,
            None => {
                return Err(EmuError::DecodeMismatch);
            },
        };
        if binary.symbols[idx].1.len() != 1 {
            return Err(EmuError::DecodeMismatch);
        }
        let section = &binary.symbols[idx].1[0].section;
        if self.is_section_loaded(section) {
            Ok(None)
        } else {
            Ok(Some(section.clone()))
        }
    }
}


/// The cursor after one yield at `(a, i)`: one step inside the group, or
/// eagerly moved to the next instruction when the group is exhausted
/// before the terminal address.
pub open spec fn cursor_after_yield(m: Machine, a: u64, i: int, end: u64) -> Cursor {
    if i + 1 < group_at(m, a).len() || a >= end {
        Cursor { address: a, index: (i + 1) as usize, end_address: end }
    } else {
        match first_insn_above(m.instructions@, a) {
            Some(b) => Cursor { address: b, index: 0, end_address: end },
            None => Cursor { address: a, index: (i + 1) as usize, end_address: end },
        }
    }
}

impl Cursor {
    /// Yield the next operation record, a copy of the stored one, walking
    /// groups in ascending address order; yield nothing once the group at
    /// the terminal address is exhausted.
    pub fn next(&mut self, machine: &Machine) -> (r: Option<PCode>)
        requires
            old(self).wf(*machine),
        ensures
            final(self).wf(*machine),
            final(self).end_address == old(self).end_address,
            match r {
                Some(p) => {
                    &&& cursor_next_spec(*machine, *old(self)) is Some
                    &&& ({
                        let (a, i) = cursor_next_spec(*machine, *old(self))->0;
                        &&& p@ == group_at(*machine, a)[i]
                        &&& p@.address == a
                        &&& old(self).address <= a <= old(self).end_address
                        &&& *final(self) == cursor_after_yield(*machine, a, i, old(
                            self,
                        ).end_address)
                    })
                },
                None => {
                    &&& cursor_next_spec(*machine, *old(self)) is None
                    &&& cursor_next_spec(*machine, *final(self)) is None
                },
            },
    {
        loop
            invariant
                self.wf(*machine),
                self.end_address == old(self).end_address,
                old(self).address <= self.address,
                cursor_next_spec(*machine, *self) == cursor_next_spec(*machine, *old(self)),
            decreases self.end_address - self.address,
        {
            proof {
                assert(machine.groups().dom() =~= machine.pcodes@.dom());
            }
            let group = match machine.pcodes.get(&self.address) {
                Some(g) => g,
                None => vstd::pervasive::unreached(),
            };
            proof {
                assert(group_at(*machine, self.address) == group_views(group@));
            }
            if self.index < group.len() {
                let p = group[self.index].clone();
                let ghost a = self.address;
                let ghost i = self.index as int;
                proof {
                    assert(cursor_next_spec(*machine, *self) == Some((a, i)));
                    assert(group_at(*machine, a)[i] == group@[i]@);
                }
                self.index = self.index + 1;
                if self.index == group.len() && self.address != self.end_address {
                    proof {
                        lemma_first_insn_above(machine.instructions@, self.address);
                    }
                    match machine.next_insn_above(self.address) {
                        Some(b) => {
                            proof {
                                assert(b <= self.end_address);
                            }
                            self.address = b;
                            self.index = 0;
                        },
                        None => {
                            proof {
                                let ie = choose|k: int|
                                    0 <= k < machine.instructions@.len() && (
                                    #[trigger] machine.instructions@[k]).address
                                        == self.end_address;
                                assert(false);
                            }
                        },
                    }
                }
                return Some(p);
            }
            if self.address == self.end_address {
                return None;
            }
            proof {
                lemma_first_insn_above(machine.instructions@, self.address);
            }
            match machine.next_insn_above(self.address) {
                Some(b) => {
                    proof {
                        assert(b <= self.end_address);
                    }
                    self.address = b;
                    self.index = 0;
                },
                None => {
                    proof {
                        let ie = choose|k: int|
                            0 <= k < machine.instructions@.len() && (
                            #[trigger] machine.instructions@[k]).address == self.end_address;
                        assert(false);
                    }
                },
            }
        }
    }

    /// Retarget the cursor: to the group at a valid instruction address,
    /// or, aimed at the terminal address, to the parked state whose next
    /// yield is nothing.
    pub fn set_address(&mut self, address: u64, machine: &Machine)
        requires
            old(self).wf(*machine),
            address == old(self).end_address || addr_ok(*machine, old(self).end_address, address),
        ensures
            final(self).wf(*machine),
            final(self).end_address == old(self).end_address,
            address != old(self).end_address ==> *final(self) == (Cursor {
                address,
                index: 0,
                end_address: old(self).end_address,
            }),
            address == old(self).end_address ==> final(self).address == address
                && cursor_next_spec(*machine, *final(self)) is None,
    {
        proof {
            assert(machine.groups().dom() =~= machine.pcodes@.dom());
        }
        if address != self.end_address {
            self.address = address;
            self.index = 0;
        } else {
            self.address = self.end_address;
            let group = match machine.pcodes.get(&self.end_address) {
                Some(g) => g,
                None => vstd::pervasive::unreached(),
            };
            self.index = group.len();
            proof {
                assert(group_at(*machine, self.address) == group_views(group@));
            }
        }
    }

    /// Whether the run is over: the next yield would be nothing.
    pub fn at_end(&self, machine: &Machine) -> (r: bool)
        requires
            self.wf(*machine),
        ensures
            r == (cursor_next_spec(*machine, *self) is None),
    {
        let mut probe = Cursor {
            address: self.address,
            index: self.index,
            end_address: self.end_address,
        };
        let stepped = probe.next(machine);
        stepped.is_none()
    }

    /// Whether a branch may retarget the cursor to this address: used by
    /// drivers before `set_address`.
    pub fn valid_branch_target(&self, machine: &Machine, target: u64) -> (r: bool)
        ensures
            r == (target == self.end_address || addr_ok(*machine, self.end_address, target)),
    {
        proof {
            assert(machine.groups().dom() =~= machine.pcodes@.dom());
        }
        if target == self.end_address {
            return true;
        }
        if target > self.end_address {
            return false;
        }
        let mut found: bool = false;
        let n = machine.instructions.len();
        let mut i: usize = 0;
        while i < n
            invariant
                0 <= i <= n,
                n == machine.instructions@.len(),
                machine.groups().dom() =~= machine.pcodes@.dom(),
                found ==> has_insn(machine.instructions@, target),
                !found ==> forall|j: int|
                    0 <= j < i ==> (#[trigger] machine.instructions@[j]).address != target,
            decreases n - i,
        {
            if self.instructions_probe(machine, i, target) {
                found = true;
            }
            i = i + 1;
        }
        if !found {
            return false;
        }
        if !machine.pcodes.contains_key(&target) {
            return false;
        }
        let mut j: usize = 0;
        while j < n
            invariant
                0 <= j <= n,
                n == machine.instructions@.len(),
                machine.groups().dom() =~= machine.pcodes@.dom(),
                forall|k: int|
                    0 <= k < j ==> {
                        let b = (#[trigger] machine.instructions@[k]).address;
                        !(target < b <= self.end_address) || machine.groups().dom().contains(b)
                    },
            decreases n - j,
        {
            let b = machine.instructions[j].address;
            if target < b && b <= self.end_address {
                if !machine.pcodes.contains_key(&b) {
                    proof {
                        assert(has_insn(machine.instructions@, b));
                    }
                    return false;
                }
            }
            j = j + 1;
        }
        proof {
            assert forall|b: u64|
                has_insn(machine.instructions@, b) && target < b
                    <= self.end_address implies #[trigger] machine.groups().dom().contains(b) by {
                let k = choose|k: int|
                    0 <= k < machine.instructions@.len() && (
                    #[trigger] machine.instructions@[k]).address == b;
            }
        }
        true
    }

    /// Whether the instruction at this table index carries the address.
    fn instructions_probe(&self, machine: &Machine, i: usize, target: u64) -> (r: bool)
        requires
            i < machine.instructions@.len(),
        ensures
            r == (machine.instructions@[i as int].address == target),
            r ==> has_insn(machine.instructions@, target),
    {
        machine.instructions[i].address == target
    }
}


/// The first failure among the initial register writes: an unknown
/// register name, or one whose varnode cannot be written.
pub open spec fn init_err(
    table: Seq<(String, VarnodeData)>,
    inits: Seq<(String, u64)>,
) -> Option<EmuError>
    decreases inits.len(),
{
    if inits.len() == 0 {
        None
    } else {
        match lookup_register(table, inits[0].0@) {
            None => Some(EmuError::DecodeMismatch),
            Some(node) => {
                if !can_write(node) {
                    Some(write_err(node))
                } else {
                    init_err(table, inits.skip(1))
                }
            },
        }
    }
}

/// The memory after the initial register values are written in order.
pub open spec fn init_fold(
    m: EmuView,
    table: Seq<(String, VarnodeData)>,
    inits: Seq<(String, u64)>,
) -> EmuView
    decreases inits.len(),
{
    if inits.len() == 0 {
        m
    } else {
        match lookup_register(table, inits[0].0@) {
            None => m,
            Some(node) => init_fold(
                varnode_written(m, node, inits[0].1 as int),
                table,
                inits.skip(1),
            ),
        }
    }
}

/// What preparing a run yields: the function's entry and terminal
/// instruction addresses, or the exact error.  The symbol must have
/// exactly one definition in a loaded section; the function's byte range
/// must hold an instruction, every instruction in it must have a group,
/// and each initial register value must name a writable register.
pub open spec fn prepare_outcome(
    m: Machine,
    symbols: Seq<(String, Vec<Symbol>)>,
    name: Seq<char>,
    inits: Seq<(String, u64)>,
) -> Result<(u64, u64), EmuError> {
    match lookup_symbols(symbols, name) {
        None => Err(EmuError::DecodeMismatch),
        Some(idx) => {
            let list = symbols[idx].1;
            if list@.len() != 1 {
                Err(EmuError::DecodeMismatch)
            } else {
                let sym = list@[0];
                if !section_loaded(m.sections@, sym.section@) {
                    Err(EmuError::DecodeMismatch)
                } else if sym.address + sym.size > u64::MAX {
                    Err(EmuError::InvariantViolation)
                } else {
                    match last_insn_in(m.instructions@, sym.address, sym.address + sym.size) {
                        None => Err(EmuError::DecodeMismatch),
                        Some(end) => {
                            if !range_covered(m, sym.address, end) {
                                Err(EmuError::DecodeMismatch)
                            } else {
                                match init_err(mirror(m.register_names@), inits) {
                                    Some(e) => Err(e),
                                    None => Ok((sym.address, end)),
                                }
                            }
                        },
                    }
                }
            }
        },
    }
}

impl Machine {
    /// Prepare one run of a function: fresh spaces with the initial
    /// register values applied, and a cursor standing at the function's
    /// entry with the terminal address set to the highest instruction
    /// address inside the function's byte range.
    pub fn emulate(&self, binary: &Binary, symbol: &String, inits: &Vec<(String, u64)>) -> (r:
        Result<(Emulator, Cursor), EmuError>)
        requires
            self.wf(),
        ensures
            match r {
                Ok((emu, cursor)) => {
                    &&& prepare_outcome(*self, binary.symbols@, symbol@, inits@) == Ok::<
                        _,
                        EmuError,
                    >((cursor.address, cursor.end_address))
                    &&& cursor.index == 0
                    &&& cursor.wf(*self)
                    &&& emu.register_names@ == self.register_names@
                    &&& emu.named_registers@ == mirror(self.register_names@)
                    &&& emu.space_ids@ == self.space_ids@
                    &&& emu.mem() == init_fold(empty_view(), mirror(self.register_names@), inits@)
                },
                Err(e) => prepare_outcome(*self, binary.symbols@, symbol@, inits@) == Err::<
                    (u64, u64),
                    _,
                >(e),
            },
    {
        let idx = match binary.find_symbols(symbol) {
            Some(i) => i,
            None => {
                return Err(EmuError::DecodeMismatch);
            },
        };
        if binary.symbols[idx].1.len() != 1 {
            return Err(EmuError::DecodeMismatch);
        }
        let address = binary.symbols[idx].1[0].address;
        let size = binary.symbols[idx].1[0].size;
        if !self.is_section_loaded(&binary.symbols[idx].1[0].section) {
            return Err(EmuError::DecodeMismatch);
        }
        if address > u64::MAX - size {
            return Err(EmuError::InvariantViolation);
        }
        let end = match self.find_last_insn_in(address, address + size) {
            Some(e) => e,
            None => {
                return Err(EmuError::DecodeMismatch);
            },
        };
        if !self.check_range_covered(address, end) {
            return Err(EmuError::DecodeMismatch);
        }
        proof {
            lemma_last_insn_in(self.instructions@, address, address + size);
        }
        let mut emu = Emulator::new(self.clone_registers(), self.clone_space_ids());
        let n = inits.len();
        let mut i: usize = 0;
        proof {
            assert(inits@.skip(0) =~= inits@);
        }
        while i < n
            invariant
                0 <= i <= n,
                n == inits@.len(),
                emu.register_names@ == self.register_names@,
                emu.named_registers@ == mirror(self.register_names@),
                emu.space_ids@ == self.space_ids@,
                init_err(mirror(self.register_names@), inits@.skip(i as int)) == init_err(
                    mirror(self.register_names@),
                    inits@,
                ),
                init_fold(emu.mem(), mirror(self.register_names@), inits@.skip(i as int))
                    == init_fold(empty_view(), mirror(self.register_names@), inits@),
                ({
                    let po = prepare_outcome(*self, binary.symbols@, symbol@, inits@);
                    match init_err(mirror(self.register_names@), inits@) {
                        Some(e) => po == Err::<(u64, u64), _>(e),
                        None => po == Ok::<_, EmuError>((address, end)),
                    }
                }),
            decreases n - i,
        {
            proof {
                assert(inits@.skip(i as int).skip(1) =~= inits@.skip(i + 1));
                assert(inits@.skip(i as int)[0] == inits@[i as int]);
            }
            let node = match emu.get_register(&inits[i].0) {
                Some(v) => *v,
                None => {
                    return Err(EmuError::DecodeMismatch);
                },
            };
            if let Err(e) = crate::step::check_write_node(&node) {
                return Err(e);
            }
            let value = BigUnsigned::from_u64(inits[i].1);
            emu.write_uint(&node, &value);
            i = i + 1;
        }
        proof {
            assert(inits@.skip(n as int) =~= Seq::<(String, u64)>::empty());
        }
        let cursor = Cursor { address, index: 0, end_address: end };
        Ok((emu, cursor))
    }
}

} // verus!
