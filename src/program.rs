//! Whole programs: subroutine addresses, layout and the emitted image.

use vstd::prelude::*;
use vstd::arithmetic::div_mod::{lemma_add_mod_noop, lemma_add_mod_noop_right};
use crate::compiler::Compiler;
use crate::scope::Scope;
use crate::nodes::{encode_list, expanded, list_size, lemma_list_size};
use crate::program_node::{SubroutineNode, list_defs, macros_placed};

verus! {

/// A parsed program: subroutines in emission order, `main` first, and the
/// program-level bindings (constants, then subroutine addresses).
#[derive(Debug)]
pub struct ProgramNode {
    pub subroutines: Vec<SubroutineNode>,
    pub placeholders: Scope,
}

/// The total encoded size of a list of subroutines.
pub open spec fn total_size(subs: Seq<SubroutineNode>) -> nat
    decreases subs.len(),
{
    if subs.len() == 0 {
        0
    } else {
        total_size(subs.drop_last()) + list_size(subs.last().instructions@)
    }
}

/// Where subroutine `k` starts: the size of those before it, modulo 2^16.
pub open spec fn start_of(subs: Seq<SubroutineNode>, k: int) -> int {
    total_size(subs.subrange(0, k)) as int % 65536
}

/// Each subroutine's name bound to its start.
pub open spec fn start_bindings(subs: Seq<SubroutineNode>) -> Seq<(Seq<char>, u16)>
    decreases subs.len(),
{
    if subs.len() == 0 {
        Seq::empty()
    } else {
        start_bindings(subs.drop_last()).push((subs.last().name@, (total_size(subs.drop_last()) % 65536) as u16))
    }
}

/// Every subroutine body has its macro calls expanded.
pub open spec fn all_expanded(subs: Seq<SubroutineNode>) -> bool {
    forall|k: int| 0 <= k < subs.len() ==> expanded(#[trigger] subs[k].instructions@)
}

/// `a` is `b` laid out from `start` under the program scope `scope`.
#[verifier::opaque]
pub open spec fn sub_laid_out(b: SubroutineNode, a: SubroutineNode, scope: Seq<(Seq<char>, u16)>, start: int) -> bool {
    &&& a.name == b.name
    &&& a.placeholders@ == scope + list_defs(b.instructions@, start)
    &&& macros_placed(b.instructions@, a.instructions@, a.placeholders@, start)
    &&& expanded(a.instructions@)
    &&& list_size(a.instructions@) == list_size(b.instructions@)
}

/// `after` is `before` laid out under the program scope `scope`.
pub open spec fn laid_out(before: Seq<SubroutineNode>, after: Seq<SubroutineNode>, scope: Seq<(Seq<char>, u16)>) -> bool {
    &&& after.len() == before.len()
    &&& forall|k: int| 0 <= k < before.len() ==> sub_laid_out(#[trigger] before[k], after[k], scope, start_of(before, k))
}

/// The image of a list of subroutines: each body in its own scope, in order.
pub open spec fn program_image(subs: Seq<SubroutineNode>) -> Option<Seq<u8>>
    decreases subs.len(),
{
    if subs.len() == 0 {
        Some(Seq::empty())
    } else {
        match (program_image(subs.drop_last()), encode_list(subs.last().instructions@, subs.last().placeholders@)) {
            (Some(a), Some(b)) => Some(a + b),
            _ => None,
        }
    }
}

impl ProgramNode {
    /// Lays the program out: every subroutine name is bound to its start in
    /// the program scope, then each subroutine is laid out from its start.
    #[verifier::rlimit(60)]
    pub fn calculate_placeholders(&mut self)
        requires
            all_expanded(old(self).subroutines@),
        ensures
            final(self).placeholders@ == old(self).placeholders@ + start_bindings(old(self).subroutines@),
            laid_out(old(self).subroutines@, final(self).subroutines@, final(self).placeholders@),
            all_expanded(final(self).subroutines@),
    {
        let ghost subs = self.subroutines@;
        let ghost consts = self.placeholders@;
        let mut position: u16 = 0;
        let mut i: usize = 0;
        assert(subs.subrange(0, 0) =~= Seq::<SubroutineNode>::empty());
        assert(self.placeholders@ =~= consts + Seq::<(Seq<char>, u16)>::empty());
        while i < self.subroutines.len()
            invariant
                i <= subs.len(),
                self.subroutines@ == subs,
                all_expanded(subs),
                self.placeholders@ == consts + start_bindings(subs.subrange(0, i as int)),
                position as int == total_size(subs.subrange(0, i as int)) % 65536,
            decreases subs.len() - i,
        {
            let ghost prefix = subs.subrange(0, i + 1);
            assert(prefix.drop_last() =~= subs.subrange(0, i as int));
            assert(expanded(subs[i as int].instructions@));
            let name = self.subroutines[i].name.clone();
            self.placeholders.insert(name, position);
            assert(self.placeholders@ =~= consts + start_bindings(prefix));
            let s = self.subroutines[i].get_size();
            proof {
                lemma_add_mod_noop(total_size(prefix.drop_last()) as int, list_size(subs[i as int].instructions@) as int, 65536);
            }
            position = ((position as u32 + s as u32) % 65536) as u16;
            i = i + 1;
        }
        assert(subs.subrange(0, i as int) =~= subs);
        position = 0;
        let mut j: usize = 0;
        while j < self.subroutines.len()
            invariant
                j <= subs.len(),
                self.subroutines@.len() == subs.len(),
                all_expanded(subs),
                self.placeholders@ == consts + start_bindings(subs),
                forall|k: int| j <= k < subs.len() ==> self.subroutines@[k] == subs[k],
                forall|k: int| 0 <= k < j ==> expanded(#[trigger] self.subroutines@[k].instructions@),
                forall|k: int|
                    0 <= k < j ==> sub_laid_out(#[trigger] subs[k], self.subroutines@[k], self.placeholders@, start_of(subs, k)),
                position as int == start_of(subs, j as int),
            decreases subs.len() - j,
        {
            proof {
                let prefix = subs.subrange(0, j + 1);
                assert(prefix.drop_last() =~= subs.subrange(0, j as int));
                assert(expanded(subs[j as int].instructions@));
                let t = total_size(prefix.drop_last()) as int;
                let ls = list_size(subs[j as int].instructions@) as int;
                lemma_add_mod_noop(t, ls, 65536);
                lemma_add_mod_noop_right(t % 65536, ls, 65536);
                assert(total_size(prefix) == t + ls);
            }
            let ghost before = self.subroutines@;
            self.subroutines[j].calculate_placeholders(&mut position, &self.placeholders);
            assert(sub_laid_out(subs[j as int], self.subroutines@[j as int], self.placeholders@, start_of(subs, j as int))) by {
                reveal(sub_laid_out);
            }
            assert(forall|k: int| 0 <= k < subs.len() && k != j ==> self.subroutines@[k] == before[k]);
            j = j + 1;
        }
    }

    /// Emits every subroutine in order, each in its own scope.
    pub fn compile(&self, compiler: &mut Compiler) -> (r: Result<(), String>)
        requires
            all_expanded(self.subroutines@),
        ensures
            r is Ok <==> program_image(self.subroutines@) is Some,
            r is Ok ==> final(compiler).bytes@ == old(compiler).bytes@ + program_image(self.subroutines@)->0,
    {
        compiler.scope = self.placeholders.copy();
        let mut i: usize = 0;
        while i < self.subroutines.len()
            invariant
                i <= self.subroutines@.len(),
                all_expanded(self.subroutines@),
                program_image(self.subroutines@.subrange(0, i as int)) matches Some(b) && compiler.bytes@
                    == old(compiler).bytes@ + b,
            decreases self.subroutines@.len() - i,
        {
            let sub = &self.subroutines[i];
            proof {
                assert(expanded(self.subroutines@[i as int].instructions@));
                assert(self.subroutines@.subrange(0, i + 1).drop_last() =~= self.subroutines@.subrange(0, i as int));
            }
            match sub.compile(compiler) {
                Ok(()) => {},
                Err(e) => {
                    proof {
                        lemma_image_none_extends(self.subroutines@, i + 1);
                    }
                    return Err(e);
                },
            }
            i = i + 1;
            proof {
                let b = program_image(self.subroutines@.subrange(0, i - 1))->0;
                assert(compiler.bytes@ =~= old(compiler).bytes@ + (b + encode_list(sub.instructions@, sub.placeholders@)->0));
            }
        }
        assert(self.subroutines@.subrange(0, i as int) =~= self.subroutines@);
        Ok(())
    }
}

/// The size of a prefix of the subroutines is at most the total.
pub proof fn lemma_total_size_prefix(subs: Seq<SubroutineNode>, k: int)
    requires
        0 <= k <= subs.len(),
    ensures
        total_size(subs.subrange(0, k)) <= total_size(subs),
    decreases subs.len(),
{
    if k < subs.len() {
        assert(subs.drop_last().subrange(0, k) =~= subs.subrange(0, k));
        lemma_total_size_prefix(subs.drop_last(), k);
    } else {
        assert(subs.subrange(0, k) =~= subs);
    }
}

/// The program scope binds subroutine `k`'s name to its start.
pub proof fn lemma_start_bindings(subs: Seq<SubroutineNode>, k: int)
    requires
        0 <= k < subs.len(),
    ensures
        start_bindings(subs).len() == subs.len(),
        start_bindings(subs)[k] == (subs[k].name@, start_of(subs, k) as u16),
    decreases subs.len(),
{
    if subs.len() > 1 {
        lemma_start_bindings(subs.drop_last(), 0);
    } else {
        assert(subs.drop_last().len() == 0);
        assert(start_bindings(subs.drop_last()) == Seq::<(Seq<char>, u16)>::empty());
    }
    assert(start_bindings(subs.drop_last()).len() == subs.len() - 1);
    if k < subs.len() - 1 {
        lemma_start_bindings(subs.drop_last(), k);
        assert(subs.drop_last().subrange(0, k) =~= subs.subrange(0, k));
    } else {
        assert(subs.drop_last() =~= subs.subrange(0, k));
    }
}

/// The image is as long as all the bodies together.
pub proof fn lemma_image_len(subs: Seq<SubroutineNode>)
    ensures
        program_image(subs) matches Some(img) ==> img.len() == total_size(subs),
    decreases subs.len(),
{
    if subs.len() > 0 {
        lemma_image_len(subs.drop_last());
        lemma_list_size(subs.last().instructions@, subs.last().placeholders@);
    }
}

/// Size additivity: while the program fits in 64 KiB, each subroutine's
/// size is the distance from its start to the next one's, and the last
/// one's size is the distance from its start to the end of the image.
pub proof fn lemma_size_additivity(subs: Seq<SubroutineNode>, k: int)
    requires
        0 <= k < subs.len(),
        total_size(subs) < 65536,
    ensures
        k + 1 < subs.len() ==> start_of(subs, k + 1) == start_of(subs, k) + list_size(subs[k].instructions@),
        program_image(subs) matches Some(img) ==> img.len() == total_size(subs) && (k == subs.len() - 1 ==> img.len()
            - start_of(subs, k) == list_size(subs[k].instructions@)),
{
    lemma_total_size_prefix(subs, k);
    lemma_total_size_prefix(subs, k + 1);
    assert(subs.subrange(0, k + 1).drop_last() =~= subs.subrange(0, k));
    assert(subs.subrange(0, k + 1).last() == subs[k]);
    lemma_image_len(subs);
    if k == subs.len() - 1 {
        assert(subs.subrange(0, k + 1) =~= subs);
    }
}

/// Main at origin: the first subroutine starts at address 0 and the
/// program scope's first subroutine binding is its name at 0.
pub proof fn lemma_main_at_origin(subs: Seq<SubroutineNode>)
    requires
        subs.len() > 0,
    ensures
        start_of(subs, 0) == 0,
        start_bindings(subs)[0] == (subs[0].name@, 0u16),
{
    assert(subs.subrange(0, 0) =~= Seq::<SubroutineNode>::empty());
    lemma_start_bindings(subs, 0);
}

/// Layout keeps names and sizes, so the starts it recorded are those of the
/// laid-out subroutines.
pub proof fn lemma_laid_out_bindings(before: Seq<SubroutineNode>, after: Seq<SubroutineNode>, scope: Seq<(Seq<char>, u16)>)
    requires
        laid_out(before, after, scope),
    ensures
        start_bindings(after) == start_bindings(before),
        total_size(after) == total_size(before),
    decreases before.len(),
{
    reveal(sub_laid_out);
    if before.len() > 0 {
        let k = before.len() - 1;
        assert(laid_out(before.drop_last(), after.drop_last(), scope)) by {
            assert forall|j: int| 0 <= j < before.drop_last().len() implies sub_laid_out(
                #[trigger] before.drop_last()[j],
                after.drop_last()[j],
                scope,
                start_of(before.drop_last(), j),
            ) by {
                assert(before.drop_last().subrange(0, j) =~= before.subrange(0, j));
                assert(sub_laid_out(before[j], after[j], scope, start_of(before, j)));
            }
        }
        lemma_laid_out_bindings(before.drop_last(), after.drop_last(), scope);
        assert(sub_laid_out(before[k], after[k], scope, start_of(before, k)));
    }
}

/// When a prefix of the subroutines does not encode, neither does the program.
proof fn lemma_image_none_extends(subs: Seq<SubroutineNode>, k: int)
    requires
        0 <= k <= subs.len(),
        program_image(subs.subrange(0, k)) is None,
    ensures
        program_image(subs) is None,
    decreases subs.len() - k,
{
    if k < subs.len() {
        assert(subs.subrange(0, k + 1).drop_last() =~= subs.subrange(0, k));
        lemma_image_none_extends(subs, k + 1);
    } else {
        assert(subs.subrange(0, k) =~= subs);
    }
}

} // verus!
