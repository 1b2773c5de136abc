//! Subroutines and whole programs: layout of addresses and emission.

use vstd::prelude::*;
use vstd::arithmetic::div_mod::{lemma_add_mod_noop, lemma_small_mod};
use crate::compiler::Compiler;
use crate::scope::Scope;
use crate::nodes::{
    Node, InstructionNode, MacroHolder, body_defs, body_size, encode, encode_list, expanded, list_size, plain_body,
    populated, size_of,
};

verus! {

/// A named block of instructions, with the scope its instructions are
/// emitted in once laid out.
#[derive(Debug)]
pub struct SubroutineNode {
    pub name: String,
    pub instructions: Vec<InstructionNode>,
    pub placeholders: Scope,
}

/// The labels of a subroutine body placed from `start`: each DEF bound to
/// the position it stands at, modulo 2^16.
pub open spec fn list_defs(nodes: Seq<InstructionNode>, start: int) -> Seq<(Seq<char>, u16)>
    decreases nodes.len(),
{
    if nodes.len() == 0 {
        Seq::empty()
    } else {
        let prev = list_defs(nodes.drop_last(), start);
        match nodes.last() {
            InstructionNode::DEF(name) => prev.push((name@, ((start + list_size(nodes.drop_last())) % 65536) as u16)),
            _ => prev,
        }
    }
}

/// `after` is `before` with each expanded macro placed: its scope is
/// `scope` followed by its labels, counted from where it stands when the
/// body starts at `start`. Everything else is unchanged.
pub open spec fn macros_placed(
    before: Seq<InstructionNode>,
    after: Seq<InstructionNode>,
    scope: Seq<(Seq<char>, u16)>,
    start: int,
) -> bool {
    &&& after.len() == before.len()
    &&& forall|i: int|
        0 <= i < before.len() ==> match #[trigger] before[i] {
            InstructionNode::Macro(MacroHolder::Macro(m)) => after[i] matches InstructionNode::Macro(
                MacroHolder::Macro(m2),
            ) && m2.instructions == m.instructions && m2.placeholders@ == scope + body_defs(
                m.instructions@,
                (start + list_size(before.subrange(0, i))) % 65536,
            ),
            _ => after[i] == before[i],
        }
}

proof fn lemma_placed_size(before: Seq<InstructionNode>, after: Seq<InstructionNode>, scope: Seq<(Seq<char>, u16)>, start: int)
    requires
        macros_placed(before, after, scope, start),
    ensures
        list_size(after) == list_size(before),
        expanded(before) ==> expanded(after),
    decreases before.len(),
{
    reveal(macros_placed);
    if before.len() > 0 {
        let k = before.len() - 1;
        assert(macros_placed(before.drop_last(), after.drop_last(), scope, start)) by {
            assert forall|i: int| 0 <= i < before.drop_last().len() implies before.drop_last().subrange(0, i) == before.subrange(0, i) by {
                assert(before.drop_last().subrange(0, i) =~= before.subrange(0, i));
            }
        }
        lemma_placed_size(before.drop_last(), after.drop_last(), scope, start);
        assert(before[k] == before.last());
        assert(size_of(after.last()) == size_of(before.last()));
        if expanded(before) {
            assert forall|i: int| 0 <= i < after.len() implies populated(#[trigger] after[i]) && (after[i] matches InstructionNode::Macro(
                MacroHolder::Macro(m),
            ) ==> plain_body(m.instructions@)) by {
                assert(populated(before[i]));
            }
        }
    }
}

proof fn lemma_placed_extend(
    nodes: Seq<InstructionNode>,
    before: Seq<InstructionNode>,
    after: Seq<InstructionNode>,
    scope: Seq<(Seq<char>, u16)>,
    start: int,
    j: int,
)
    requires
        0 <= j < nodes.len(),
        before.len() == nodes.len(),
        after.len() == nodes.len(),
        macros_placed(nodes.subrange(0, j), before.subrange(0, j), scope, start),
        forall|k: int| 0 <= k < nodes.len() && k != j ==> after[k] == before[k],
        before[j] == nodes[j],
        match nodes[j] {
            InstructionNode::Macro(MacroHolder::Macro(m)) => after[j] matches InstructionNode::Macro(
                MacroHolder::Macro(m2),
            ) && m2.instructions == m.instructions && m2.placeholders@ == scope + body_defs(
                m.instructions@,
                (start + list_size(nodes.subrange(0, j))) % 65536,
            ),
            _ => after[j] == nodes[j],
        },
    ensures
        macros_placed(nodes.subrange(0, j + 1), after.subrange(0, j + 1), scope, start),
{
    reveal(macros_placed);
    let prefix = nodes.subrange(0, j + 1);
    let old_prefix = nodes.subrange(0, j);
    assert forall|k: int| 0 <= k <= j implies #[trigger] prefix.subrange(0, k) == nodes.subrange(0, k)
        && old_prefix.subrange(0, k) == nodes.subrange(0, k) by {
        assert(prefix.subrange(0, k) =~= nodes.subrange(0, k));
        assert(old_prefix.subrange(0, k) =~= nodes.subrange(0, k));
    }
    assert forall|k: int| 0 <= k < prefix.len() implies match #[trigger] prefix[k] {
        InstructionNode::Macro(MacroHolder::Macro(m)) => after.subrange(0, j + 1)[k] matches InstructionNode::Macro(
            MacroHolder::Macro(m2),
        ) && m2.instructions == m.instructions && m2.placeholders@ == scope + body_defs(
            m.instructions@,
            (start + list_size(prefix.subrange(0, k))) % 65536,
        ),
        _ => after.subrange(0, j + 1)[k] == prefix[k],
    } by {
        assert(prefix.subrange(0, k) == nodes.subrange(0, k));
        if k < j {
            assert(old_prefix[k] == prefix[k]);
            assert(old_prefix.subrange(0, k) == nodes.subrange(0, k));
            assert(before.subrange(0, j)[k] == after[k]);
        }
    }
}

impl SubroutineNode {
    /// The body's encoded size, modulo 2^16.
    pub fn get_size(&self) -> (r: u16)
        requires
            expanded(self.instructions@),
        ensures
            r == list_size(self.instructions@) % 65536,
    {
        let mut size: u16 = 0;
        let mut i: usize = 0;
        while i < self.instructions.len()
            invariant
                i <= self.instructions@.len(),
                expanded(self.instructions@),
                size == list_size(self.instructions@.subrange(0, i as int)) % 65536,
            decreases self.instructions@.len() - i,
        {
            let n = &self.instructions[i];
            assert(populated(self.instructions@[i as int]));
            let s = n.get_size();
            proof {
                let prefix = self.instructions@.subrange(0, i + 1);
                assert(prefix.drop_last() =~= self.instructions@.subrange(0, i as int));
                lemma_add_mod_noop(list_size(prefix.drop_last()) as int, size_of(*n) as int, 65536);
            }
            size = ((size as u32 + s as u32) % 65536) as u16;
            i = i + 1;
        }
        assert(self.instructions@.subrange(0, i as int) =~= self.instructions@);
        size
    }

    /// Emits the body in this subroutine's scope.
    pub fn compile(&self, compiler: &mut Compiler) -> (r: Result<(), String>)
        requires
            expanded(self.instructions@),
        ensures
            final(compiler).scope@ == self.placeholders@,
            r is Ok <==> encode_list(self.instructions@, self.placeholders@) is Some,
            r is Ok ==> final(compiler).bytes@ == old(compiler).bytes@ + encode_list(
                self.instructions@,
                self.placeholders@,
            )->0,
    {
        compiler.scope = self.placeholders.copy();
        let mut i: usize = 0;
        while i < self.instructions.len()
            invariant
                i <= self.instructions@.len(),
                expanded(self.instructions@),
                compiler.scope@ == self.placeholders@,
                encode_list(self.instructions@.subrange(0, i as int), self.placeholders@) matches Some(b)
                    && compiler.bytes@ == old(compiler).bytes@ + b,
            decreases self.instructions@.len() - i,
        {
            let n = &self.instructions[i];
            proof {
                assert(populated(self.instructions@[i as int]));
                assert(self.instructions@.subrange(0, i + 1).drop_last() =~= self.instructions@.subrange(0, i as int));
            }
            match n.compile(compiler) {
                Ok(()) => {},
                Err(e) => {
                    proof {
                        lemma_list_none_extends(self.instructions@, self.placeholders@, i + 1);
                    }
                    return Err(e);
                },
            }
            i = i + 1;
            proof {
                let b = encode_list(self.instructions@.subrange(0, i - 1), self.placeholders@)->0;
                assert(compiler.bytes@ =~= old(compiler).bytes@ + (b + encode(*n, self.placeholders@)->0));
            }
        }
        assert(self.instructions@.subrange(0, i as int) =~= self.instructions@);
        Ok(())
    }

    /// Lays this subroutine out from `position`: its scope becomes
    /// `placeholders` followed by its labels; each expanded macro gets that
    /// scope followed by its own labels; `position` moves past the body.
    #[verifier::spinoff_prover]
    pub fn calculate_placeholders(&mut self, position: &mut u16, placeholders: &Scope)
        requires
            expanded(old(self).instructions@),
        ensures
            final(self).name == old(self).name,
            final(self).placeholders@ == placeholders@ + list_defs(old(self).instructions@, *old(position) as int),
            macros_placed(
                old(self).instructions@,
                final(self).instructions@,
                final(self).placeholders@,
                *old(position) as int,
            ),
            expanded(final(self).instructions@),
            list_size(final(self).instructions@) == list_size(old(self).instructions@),
            *final(position) as int == (*old(position) + list_size(old(self).instructions@)) % 65536,
    {
        let initial_position = *position;
        let ghost start = *position as int;
        let ghost nodes = self.instructions@;
        self.placeholders = placeholders.copy();
        let mut i: usize = 0;
        proof {
            assert(nodes.subrange(0, 0) =~= Seq::<InstructionNode>::empty());
            assert(self.placeholders@ =~= placeholders@ + Seq::<(Seq<char>, u16)>::empty());
            lemma_small_mod(start as nat, 65536);
        }
        while i < self.instructions.len()
            invariant
                i <= nodes.len(),
                self.instructions@ == nodes,
                self.name == old(self).name,
                expanded(nodes),
                self.placeholders@ == placeholders@ + list_defs(nodes.subrange(0, i as int), start),
                *position as int == (start + list_size(nodes.subrange(0, i as int))) % 65536,
            decreases nodes.len() - i,
        {
            let ghost prefix = nodes.subrange(0, i + 1);
            proof {
                assert(prefix.drop_last() =~= nodes.subrange(0, i as int));
                assert(populated(nodes[i as int]));
            }
            match &self.instructions[i] {
                InstructionNode::DEF(name) => {
                    self.placeholders.insert(name.clone(), *position);
                    assert(self.placeholders@ =~= placeholders@ + list_defs(prefix, start));
                },
                n => {
                    let s = n.get_size();
                    proof {
                        lemma_add_mod_noop(start + list_size(prefix.drop_last()), size_of(*n) as int, 65536);
                    }
                    *position = ((*position as u32 + s as u32) % 65536) as u16;
                },
            }
            i = i + 1;
        }
        assert(nodes.subrange(0, i as int) =~= nodes);
        let ghost final_position = *position;
        *position = initial_position;
        let mut j: usize = 0;
        proof {
            lemma_small_mod(start as nat, 65536);
            reveal(macros_placed);
            assert(macros_placed(nodes.subrange(0, 0), self.instructions@.subrange(0, 0), self.placeholders@, start));
        }
        while j < self.instructions.len()
            invariant
                j <= nodes.len(),
                self.instructions@.len() == nodes.len(),
                self.name == old(self).name,
                self.placeholders@ == placeholders@ + list_defs(nodes, start),
                expanded(nodes),
                forall|k: int| j <= k < nodes.len() ==> self.instructions@[k] == nodes[k],
                macros_placed(nodes.subrange(0, j as int), self.instructions@.subrange(0, j as int), self.placeholders@, start),
                *position as int == (start + list_size(nodes.subrange(0, j as int))) % 65536,
            decreases nodes.len() - j,
        {
            let ghost prefix = nodes.subrange(0, j + 1);
            let ghost before_vec = self.instructions@;
            proof {
                assert(prefix.drop_last() =~= nodes.subrange(0, j as int));
                assert(populated(nodes[j as int]));
            }
            let s = self.instructions[j].get_size();
            match &mut self.instructions[j] {
                InstructionNode::Macro(MacroHolder::Macro(node)) => {
                    node.calculate_placeholders(position, &self.placeholders);
                },
                _ => {
                    *position = ((*position as u32 + s as u32) % 65536) as u16;
                },
            }
            proof {
                lemma_add_mod_noop(start + list_size(prefix.drop_last()), size_of(nodes[j as int]) as int, 65536);
                assert(forall|k: int| 0 <= k < nodes.len() && k != j ==> self.instructions@[k] == before_vec[k]);
                lemma_placed_extend(nodes, before_vec, self.instructions@, self.placeholders@, start, j as int);
            }
            j = j + 1;
        }
        proof {
            assert(nodes.subrange(0, j as int) =~= nodes);
            assert(self.instructions@.subrange(0, j as int) =~= self.instructions@);
            lemma_placed_size(nodes, self.instructions@, self.placeholders@, start);
        }
    }
}

/// Bytes of a concatenation: both parts must encode.
pub proof fn lemma_encode_list_concat(a: Seq<InstructionNode>, b: Seq<InstructionNode>, scope: Seq<(Seq<char>, u16)>)
    ensures
        encode_list(a + b, scope) == match (encode_list(a, scope), encode_list(b, scope)) {
            (Some(x), Some(y)) => Some(x + y),
            _ => None::<Seq<u8>>,
        },
    decreases b.len(),
{
    if b.len() == 0 {
        assert(a + b =~= a);
        if let Some(x) = encode_list(a, scope) {
            assert(x + Seq::<u8>::empty() =~= x);
        }
    } else {
        assert((a + b).drop_last() =~= a + b.drop_last());
        assert((a + b).last() == b.last());
        lemma_encode_list_concat(a, b.drop_last(), scope);
        if let (Some(x), Some(y)) = (encode_list(a, scope), encode_list(b.drop_last(), scope)) {
            if let Some(z) = encode(b.last(), scope) {
                assert(x + y + z =~= x + (y + z));
            }
        }
    }
}

/// Size of a concatenation.
pub proof fn lemma_list_size_concat(a: Seq<InstructionNode>, b: Seq<InstructionNode>)
    ensures
        list_size(a + b) == list_size(a) + list_size(b),
    decreases b.len(),
{
    if b.len() == 0 {
        assert(a + b =~= a);
    } else {
        assert((a + b).drop_last() =~= a + b.drop_last());
        lemma_list_size_concat(a, b.drop_last());
    }
}

/// Labels of a concatenation: the second part's labels count from where it
/// starts.
pub proof fn lemma_list_defs_concat(a: Seq<InstructionNode>, b: Seq<InstructionNode>, start: int)
    ensures
        list_defs(a + b, start) == list_defs(a, start) + list_defs(b, start + list_size(a)),
    decreases b.len(),
{
    if b.len() == 0 {
        assert(a + b =~= a);
        assert(list_defs(a, start) + Seq::<(Seq<char>, u16)>::empty() =~= list_defs(a, start));
    } else {
        assert((a + b).drop_last() =~= a + b.drop_last());
        lemma_list_defs_concat(a, b.drop_last(), start);
        lemma_list_size_concat(a, b.drop_last());
        let prev = list_defs(a, start) + list_defs(b.drop_last(), start + list_size(a));
        if let InstructionNode::DEF(name) = b.last() {
            assert(prev.push((name@, ((start + list_size(a + b.drop_last())) % 65536) as u16)) =~= list_defs(a, start)
                + list_defs(b.drop_last(), start + list_size(a)).push(
                (name@, ((start + list_size(a) + list_size(b.drop_last())) % 65536) as u16),
            ));
        }
    }
}

/// A DEF is zero-width: removing it leaves the bytes and the size of a body
/// unchanged, and removes only its own binding from the body's labels.
pub proof fn lemma_def_zero_width(nodes: Seq<InstructionNode>, i: int, scope: Seq<(Seq<char>, u16)>, start: int)
    requires
        0 <= i < nodes.len(),
        nodes[i] is DEF,
    ensures
        encode_list(nodes.remove(i), scope) == encode_list(nodes, scope),
        list_size(nodes.remove(i)) == list_size(nodes),
        ({
            let before = nodes.subrange(0, i);
            let after = nodes.subrange(i + 1, nodes.len() as int);
            let name = nodes[i]->DEF_0;
            let pos = ((start + list_size(before)) % 65536) as u16;
            &&& list_defs(nodes, start) == list_defs(before, start).push((name@, pos)) + list_defs(after, start + list_size(before))
            &&& list_defs(nodes.remove(i), start) == list_defs(before, start) + list_defs(after, start + list_size(before))
        }),
{
    let before = nodes.subrange(0, i);
    let after = nodes.subrange(i + 1, nodes.len() as int);
    let def = seq![nodes[i]];
    let name = nodes[i]->DEF_0;
    assert(nodes =~= before + def + after);
    assert(nodes.remove(i) =~= before + after);
    assert(def.drop_last() =~= Seq::<InstructionNode>::empty());
    assert(def.last() == nodes[i]);
    assert(encode_list(def.drop_last(), scope) == Some(Seq::<u8>::empty()));
    assert(encode(nodes[i], scope) == Some(Seq::<u8>::empty()));
    assert(Seq::<u8>::empty() + Seq::<u8>::empty() =~= Seq::<u8>::empty());
    assert(encode_list(def, scope) == Some(Seq::<u8>::empty()));
    assert(list_size(def.drop_last()) == 0);
    assert(list_defs(def.drop_last(), start + list_size(before)) == Seq::<(Seq<char>, u16)>::empty());
    lemma_encode_list_concat(before + def, after, scope);
    lemma_encode_list_concat(before, def, scope);
    lemma_encode_list_concat(before, after, scope);
    if let Some(x) = encode_list(before, scope) {
        assert(x + Seq::<u8>::empty() =~= x);
    }
    lemma_list_size_concat(before + def, after);
    lemma_list_size_concat(before, def);
    lemma_list_size_concat(before, after);
    lemma_list_defs_concat(before + def, after, start);
    lemma_list_defs_concat(before, def, start);
    lemma_list_defs_concat(before, after, start);
    assert(list_defs(def, start + list_size(before)) =~= seq![(name@, ((start + list_size(before)) % 65536) as u16)]);
    assert(list_defs(before, start) + seq![(name@, ((start + list_size(before)) % 65536) as u16)] =~= list_defs(
        before,
        start,
    ).push((name@, ((start + list_size(before)) % 65536) as u16)));
}

impl Node for SubroutineNode {
    open spec fn size(&self) -> nat {
        list_size(self.instructions@)
    }

    open spec fn sized(&self) -> bool {
        expanded(self.instructions@)
    }

    fn get_size(&self) -> (r: u16) {
        SubroutineNode::get_size(self)
    }
}

/// When a prefix of a subroutine body does not encode, neither does the body.
proof fn lemma_list_none_extends(nodes: Seq<InstructionNode>, scope: Seq<(Seq<char>, u16)>, k: int)
    requires
        0 <= k <= nodes.len(),
        encode_list(nodes.subrange(0, k), scope) is None,
    ensures
        encode_list(nodes, scope) is None,
    decreases nodes.len() - k,
{
    if k < nodes.len() {
        assert(nodes.subrange(0, k + 1).drop_last() =~= nodes.subrange(0, k));
        lemma_list_none_extends(nodes, scope, k + 1);
    } else {
        assert(nodes.subrange(0, k) =~= nodes);
    }
}

} // verus!
