//! The top-level parse: items of the root file and of spliced files, then
//! macro expansion and layout.

use vstd::prelude::*;
use crate::error_handler::{CompilerError, ErrorCode, has_critical};
use crate::lexer::{Token, TokenType, allowed, append_string, chars_of, new_line_tokens, newlines};
use crate::macros::{Macro, ident_text, call_tokens, calls_expanded, calls_resolve, capture_end, header_ok, lemma_call_tokens_len};
use crate::nodes::InstructionNode;
use crate::parsing::line_node;
use crate::number_nodes::{Imm16, literal_value};
use crate::parser::Parser;
use crate::parsing::{all_fresh, all_lines_ok, body_from};
use crate::scope::Scope;
use crate::nodes::expanded;
use crate::program_node::SubroutineNode;
use crate::program::{ProgramNode, all_expanded, laid_out, lemma_laid_out_bindings, start_bindings, start_of, sub_laid_out};

verus! {

/// The name of the entry subroutine.
pub open spec fn main_name() -> Seq<char> {
    seq!['m', 'a', 'i', 'n']
}

fn is_main(name: &String) -> (r: bool)
    ensures
        r == (name@ == main_name()),
{
    let chars = chars_of(name);
    if chars.len() != 4 {
        return false;
    }
    let r = chars[0] == 'm' && chars[1] == 'a' && chars[2] == 'i' && chars[3] == 'n';
    if r {
        assert(chars@ =~= main_name());
    }
    r
}

/// `dst` is `src` with every macro call of every subroutine replaced by
/// the expansion of the latest definition of its name.
pub open spec fn expands_to(src: Seq<SubroutineNode>, dst: Seq<SubroutineNode>, macros: Seq<Macro>) -> bool {
    &&& dst.len() == src.len()
    &&& forall|k: int|
        0 <= k < src.len() ==> (#[trigger] dst[k]).name == src[k].name && calls_expanded(
            src[k].instructions@,
            dst[k].instructions@,
            macros,
        )
}

/// A subroutine header `name ':' NL` stands at `c`.
pub open spec fn sub_header(ts: Seq<Token>, c: int) -> bool {
    0 <= c && c + 2 < ts.len() && ts[c].token_type is Identifier && ts[c + 1].token_type is Colon && ts[c
        + 2].token_type is NewLine
}

/// A `@const name number` item whose number fits 16 bits stands at `c`.
pub open spec fn const_ok(ts: Seq<Token>, c: int) -> bool {
    &&& 0 <= c
    &&& c + 2 < ts.len()
    &&& ts[c].token_type is Constant
    &&& ts[c + 1].token_type is Identifier
    &&& ts[c + 2].token_type matches TokenType::Number(s) && literal_value(s@) matches Some(v) && 0 <= v <= 65535
}

/// A macro header has one parameter count.
pub proof fn lemma_header_unique(ts: Seq<Token>, c: int, k1: int, k2: int)
    requires
        header_ok(ts, c, k1),
        header_ok(ts, c, k2),
    ensures
        k1 == k2,
{
    if k1 < k2 {
        assert(ts[c + 4 + k1].token_type is Identifier);
    } else if k2 < k1 {
        assert(ts[c + 4 + k2].token_type is Identifier);
    }
}

/// The top-level items from `c` to the end of the stream all parse without
/// error: macro definitions, subroutines whose lines parse, and constants
/// that fit 16 bits, with no `@include` and no stray token.
pub open spec fn items_ok(ts: Seq<Token>, c: int) -> bool
    decreases ts.len() - c,
{
    if c < 0 || c >= ts.len() {
        true
    } else if ts[c].token_type is NewLine {
        items_ok(ts, c + 1)
    } else if ts[c].token_type is EndOfFile {
        true
    } else if ts[c].token_type is Macro {
        let k = choose|k: int| header_ok(ts, c, k);
        let e = capture_end(ts, c + 7 + k);
        (exists|k: int| header_ok(ts, c, k)) && c < e <= ts.len() && items_ok(ts, e)
    } else if ts[c].token_type is Identifier {
        let e = body_from(ts, c + 3).1;
        sub_header(ts, c) && all_lines_ok(body_from(ts, c + 3).0) && c < e <= ts.len() && items_ok(ts, e)
    } else if ts[c].token_type is Constant {
        const_ok(ts, c) && items_ok(ts, c + 3)
    } else {
        false
    }
}

/// Skipping newline tokens does not change which items follow.
proof fn lemma_items_skip(ts: Seq<Token>, a: int, b: int)
    requires
        0 <= a <= b <= ts.len(),
        forall|k: int| a <= k < b ==> (#[trigger] ts[k]).token_type is NewLine,
    ensures
        items_ok(ts, a) == items_ok(ts, b),
    decreases b - a,
{
    if a < b {
        lemma_items_skip(ts, a + 1, b);
    }
}

/// No instruction of a list is a macro call.
pub open spec fn no_calls(nodes: Seq<InstructionNode>) -> bool {
    forall|i: int| 0 <= i < nodes.len() ==> !(#[trigger] nodes[i] is Macro)
}

/// Lines with no call line parse to instructions with no macro call.
pub proof fn lemma_no_calls(lines: Seq<Seq<Token>>, nodes: Seq<InstructionNode>)
    requires
        call_tokens(lines).len() == 0,
        nodes.len() == lines.len(),
        forall|i: int| 0 <= i < lines.len() ==> line_node(lines[i], #[trigger] nodes[i]),
    ensures
        no_calls(nodes),
    decreases lines.len(),
{
    if lines.len() > 0 {
        let k = lines.len() - 1;
        assert(line_node(lines[k], nodes[k]));
        lemma_call_tokens_len(lines.drop_last());
        lemma_no_calls(lines.drop_last(), nodes.drop_last());
        assert forall|i: int| 0 <= i < nodes.len() implies !(#[trigger] nodes[i] is Macro) by {
            if i < k {
                assert(nodes.drop_last()[i] == nodes[i]);
            }
        }
    }
}

/// The items from `c` include a subroutine `main` from file `root`.
pub open spec fn has_root_main(ts: Seq<Token>, c: int, root: Seq<char>) -> bool
    decreases ts.len() - c,
{
    if c < 0 || c >= ts.len() {
        false
    } else if ts[c].token_type is NewLine {
        has_root_main(ts, c + 1, root)
    } else if ts[c].token_type is Macro {
        let k = choose|k: int| header_ok(ts, c, k);
        let e = capture_end(ts, c + 7 + k);
        c < e <= ts.len() && has_root_main(ts, e, root)
    } else if ts[c].token_type is Identifier {
        let e = body_from(ts, c + 3).1;
        (ts[c].token_type->Identifier_0@ == main_name() && ts[c].file@ == root) || (c < e <= ts.len()
            && has_root_main(ts, e, root))
    } else if ts[c].token_type is Constant {
        c + 3 <= ts.len() && has_root_main(ts, c + 3, root)
    } else {
        false
    }
}

/// No subroutine body among the items from `c` has a macro call line.
pub open spec fn items_call_free(ts: Seq<Token>, c: int) -> bool
    decreases ts.len() - c,
{
    if c < 0 || c >= ts.len() {
        true
    } else if ts[c].token_type is NewLine {
        items_call_free(ts, c + 1)
    } else if ts[c].token_type is Macro {
        let k = choose|k: int| header_ok(ts, c, k);
        let e = capture_end(ts, c + 7 + k);
        c < e <= ts.len() ==> items_call_free(ts, e)
    } else if ts[c].token_type is Identifier {
        let e = body_from(ts, c + 3).1;
        call_tokens(body_from(ts, c + 3).0).len() == 0 && (c < e <= ts.len() ==> items_call_free(ts, e))
    } else if ts[c].token_type is Constant {
        c + 3 <= ts.len() ==> items_call_free(ts, c + 3)
    } else {
        true
    }
}

proof fn lemma_facts_skip(ts: Seq<Token>, a: int, b: int, root: Seq<char>)
    requires
        0 <= a <= b <= ts.len(),
        forall|k: int| a <= k < b ==> (#[trigger] ts[k]).token_type is NewLine,
    ensures
        has_root_main(ts, a, root) == has_root_main(ts, b, root),
        items_call_free(ts, a) == items_call_free(ts, b),
    decreases b - a,
{
    if a < b {
        lemma_facts_skip(ts, a + 1, b, root);
    }
}

/// How many macro definitions, subroutines and constants the items from
/// `c` hold.
pub open spec fn item_counts(ts: Seq<Token>, c: int) -> (nat, nat, nat)
    decreases ts.len() - c,
{
    if c < 0 || c >= ts.len() {
        (0, 0, 0)
    } else if ts[c].token_type is NewLine {
        item_counts(ts, c + 1)
    } else if ts[c].token_type is Macro {
        let k = choose|k: int| header_ok(ts, c, k);
        let e = capture_end(ts, c + 7 + k);
        if c < e <= ts.len() {
            let r = item_counts(ts, e);
            (r.0 + 1, r.1, r.2)
        } else {
            (0, 0, 0)
        }
    } else if ts[c].token_type is Identifier {
        let e = body_from(ts, c + 3).1;
        if c < e <= ts.len() {
            let r = item_counts(ts, e);
            (r.0, r.1 + 1, r.2)
        } else {
            (0, 0, 0)
        }
    } else if ts[c].token_type is Constant && c + 3 <= ts.len() {
        let r = item_counts(ts, c + 3);
        (r.0, r.1, r.2 + 1)
    } else {
        (0, 0, 0)
    }
}

proof fn lemma_counts_skip(ts: Seq<Token>, a: int, b: int)
    requires
        0 <= a <= b <= ts.len(),
        forall|k: int| a <= k < b ==> (#[trigger] ts[k]).token_type is NewLine,
    ensures
        item_counts(ts, a) == item_counts(ts, b),
    decreases b - a,
{
    if a < b {
        lemma_counts_skip(ts, a + 1, b);
    }
}

/// The subroutine items from `c` on, in source order: each header token
/// with the lines of its body.
pub open spec fn sub_items(ts: Seq<Token>, c: int) -> Seq<(Token, Seq<Seq<Token>>)>
    decreases ts.len() - c,
{
    if c < 0 || c >= ts.len() {
        Seq::empty()
    } else if ts[c].token_type is NewLine {
        sub_items(ts, c + 1)
    } else if ts[c].token_type is Macro {
        let k = choose|k: int| header_ok(ts, c, k);
        let e = capture_end(ts, c + 7 + k);
        if c < e <= ts.len() {
            sub_items(ts, e)
        } else {
            Seq::empty()
        }
    } else if ts[c].token_type is Identifier {
        let e = body_from(ts, c + 3).1;
        if c < e <= ts.len() {
            seq![(ts[c], body_from(ts, c + 3).0)] + sub_items(ts, e)
        } else {
            Seq::empty()
        }
    } else if ts[c].token_type is Constant && c + 3 <= ts.len() {
        sub_items(ts, c + 3)
    } else {
        Seq::empty()
    }
}

/// `t` names `main` and comes from the root file `root`.
pub open spec fn is_root_main(t: Token, root: Seq<char>) -> bool {
    t.token_type matches TokenType::Identifier(x) && x@ == main_name() && t.file@ == root
}

/// `s` is the subroutine of item `item`: its name, and one instruction per
/// body line.
pub open spec fn sub_matches(s: SubroutineNode, item: (Token, Seq<Seq<Token>>)) -> bool {
    &&& item.0.token_type matches TokenType::Identifier(x) && s.name@ == x@
    &&& s.instructions@.len() == item.1.len()
    &&& forall|i: int| 0 <= i < item.1.len() ==> line_node(item.1[i], #[trigger] s.instructions@[i])
}

/// The subroutine list after adding `news` (parsed from `items`) to `acc`
/// in order, each root `main` going to the front.
pub open spec fn arrange(
    acc: Seq<SubroutineNode>,
    news: Seq<SubroutineNode>,
    items: Seq<(Token, Seq<Seq<Token>>)>,
    root: Seq<char>,
) -> Seq<SubroutineNode>
    decreases news.len(),
{
    if news.len() == 0 || items.len() == 0 {
        acc
    } else {
        let a = arrange(acc, news.drop_last(), items.drop_last(), root);
        if is_root_main(items.last().0, root) {
            seq![news.last()] + a
        } else {
            a.push(news.last())
        }
    }
}

proof fn lemma_sub_items_skip(ts: Seq<Token>, a: int, b: int)
    requires
        0 <= a <= b <= ts.len(),
        forall|k: int| a <= k < b ==> (#[trigger] ts[k]).token_type is NewLine,
    ensures
        sub_items(ts, a) == sub_items(ts, b),
    decreases b - a,
{
    if a < b {
        lemma_sub_items_skip(ts, a + 1, b);
    }
}

/// `m` is the macro defined by the item at `c`: its header, name,
/// parameters and captured body.
pub open spec fn macro_matches(m: Macro, ts: Seq<Token>, c: int) -> bool {
    let k = m.arguments@.len() as int;
    &&& header_ok(ts, c, k)
    &&& ts[c + 2].token_type matches TokenType::Identifier(n) && n@ == m.name@
    &&& forall|i: int| 0 <= i < k ==> ident_text(ts[c + 4 + i], #[trigger] m.arguments@[i])
    &&& m.tokens@ == ts.subrange(c + 7 + k, capture_end(ts, c + 7 + k))
}

/// `b` is the binding of the `@const` item at `c`.
pub open spec fn const_matches(b: (Seq<char>, u16), ts: Seq<Token>, c: int) -> bool {
    &&& ts[c + 1].token_type matches TokenType::Identifier(n) && b.0 == n@
    &&& ts[c + 2].token_type matches TokenType::Number(t) && literal_value(t@) == Some(b.1 as int)
}

/// The positions of the macro items (`want` 0) or constant items (`want`
/// 2) from `c` on, in source order.
pub open spec fn item_starts(ts: Seq<Token>, c: int, want: int) -> Seq<int>
    decreases ts.len() - c,
{
    if c < 0 || c >= ts.len() {
        Seq::empty()
    } else if ts[c].token_type is NewLine {
        item_starts(ts, c + 1, want)
    } else if ts[c].token_type is Macro {
        let k = choose|k: int| header_ok(ts, c, k);
        let e = capture_end(ts, c + 7 + k);
        if c < e <= ts.len() {
            if want == 0 {
                seq![c] + item_starts(ts, e, want)
            } else {
                item_starts(ts, e, want)
            }
        } else {
            Seq::empty()
        }
    } else if ts[c].token_type is Identifier {
        let e = body_from(ts, c + 3).1;
        if c < e <= ts.len() {
            item_starts(ts, e, want)
        } else {
            Seq::empty()
        }
    } else if ts[c].token_type is Constant && c + 3 <= ts.len() {
        if want == 2 {
            seq![c] + item_starts(ts, c + 3, want)
        } else {
            item_starts(ts, c + 3, want)
        }
    } else {
        Seq::empty()
    }
}

proof fn lemma_starts_skip(ts: Seq<Token>, a: int, b: int, want: int)
    requires
        0 <= a <= b <= ts.len(),
        forall|k: int| a <= k < b ==> (#[trigger] ts[k]).token_type is NewLine,
    ensures
        item_starts(ts, a, want) == item_starts(ts, b, want),
    decreases b - a,
{
    if a < b {
        lemma_starts_skip(ts, a + 1, b, want);
    }
}

/// What the top-level parse asks of its caller.
pub enum ParseStep {
    /// The source includes this file, which is not loaded yet: hand its text
    /// to `ProgramParse::supply_file`, then call `ProgramNode::populate` again.
    NeedFile(String),
    /// The token stream is consumed, or a critical error stopped the parse.
    Finished,
}

/// The state of a top-level parse between include requests.
pub struct ProgramParse {
    pub subroutines: Vec<SubroutineNode>,
    pub macros: Vec<Macro>,
    pub errors: Vec<CompilerError>,
    pub placeholders: Scope,
    pub main: bool,
    pub failed: bool,
    pub root: String,
}

impl ProgramParse {
    /// Parsed subroutines are unexpanded, `main` stands first once seen, and
    /// a failed parse has recorded an error.
    pub open spec fn wf(&self) -> bool {
        &&& forall|k: int| 0 <= k < self.subroutines@.len() ==> all_fresh(#[trigger] self.subroutines@[k].instructions@)
        &&& self.main ==> self.subroutines@.len() > 0 && self.subroutines@[0].name@ == main_name()
        &&& self.failed ==> self.errors@.len() > 0
    }

    /// A parse of the program whose root file is `root`.
    pub fn new(root: String) -> (r: ProgramParse)
        ensures
            r.wf(),
            !r.failed,
            !r.main,
            r.placeholders@.len() == 0,
            r.errors@.len() == 0,
            r.subroutines@.len() == 0,
            r.macros@.len() == 0,
            r.root == root,
    {
        ProgramParse {
            subroutines: Vec::new(),
            macros: Vec::new(),
            errors: Vec::new(),
            placeholders: Scope::new(),
            main: false,
            failed: false,
            root,
        }
    }

    /// Answers an include request with the file's text, or `None` when the
    /// file does not exist; an error stops the parse.
    pub fn supply_file(&mut self, parser: &mut Parser, path: &String, contents: Option<String>)
        requires
            old(parser).wf(),
            old(self).wf(),
            contents matches Some(c) ==> c@.len() < i32::MAX,
        ensures
            final(parser).wf(),
            final(self).wf(),
            final(parser).current == old(parser).current,
            final(self).subroutines == old(self).subroutines,
            final(self).main == old(self).main,
            contents is None && !(exists|i: int|
                0 <= i < old(parser).files@.len() && (#[trigger] old(parser).files@[i])@ == path@) ==> final(self).failed,
            !final(self).failed ==> final(self).errors == old(self).errors,
            (exists|i: int| 0 <= i < old(parser).files@.len() && (#[trigger] old(parser).files@[i])@ == path@)
                ==> *final(parser) == *old(parser),
            !final(self).failed && !old(self).failed && old(parser).current < old(parser).tokens@.len() && !(exists|i: int|
                0 <= i < old(parser).files@.len() && (#[trigger] old(parser).files@[i])@ == path@) ==> exists|
                spliced: Seq<Token>,
            |
                #![trigger spliced.len()]
                final(parser).tokens@ == old(parser).tokens@.subrange(0, old(parser).current as int) + spliced
                    + old(parser).tokens@.subrange(old(parser).current as int, old(parser).tokens@.len() as int)
                    && (forall|i: int| 0 <= i < spliced.len() ==> (#[trigger] spliced[i]).file@ == path@)
                    && (contents matches Some(text) ==> new_line_tokens(spliced) == newlines(text@)),
            !old(self).failed && !(exists|i: int|
                0 <= i < old(parser).files@.len() && (#[trigger] old(parser).files@[i])@ == path@) && (contents matches Some(
                text,
            ) && forall|i: int| 0 <= i < text@.len() ==> allowed(#[trigger] text@[i])) ==> !final(self).failed,
            !old(self).failed && (exists|i: int|
                0 <= i < old(parser).files@.len() && (#[trigger] old(parser).files@[i])@ == path@) ==> !final(self).failed,
    {
        match parser.add_file(path, contents) {
            Ok(()) => {},
            Err(e) => {
                self.errors.push(e);
                self.failed = true;
            },
        }
    }

    /// Ends the parse: `main` must exist, every macro call is expanded, and
    /// the program is laid out. A critical error, or any error at all once
    /// expansion is done, makes the result the errors gathered.
    pub fn finish(self) -> (r: Result<ProgramNode, Vec<CompilerError>>)
        requires
            self.wf(),
        ensures
            r matches Ok(p) ==> {
                &&& p.subroutines@.len() > 0
                &&& p.subroutines@[0].name@ == main_name()
                &&& all_expanded(p.subroutines@)
                &&& p.placeholders@ == self.placeholders@ + start_bindings(p.subroutines@)
                &&& exists|before: Seq<SubroutineNode>|
                    #![trigger laid_out(before, p.subroutines@, p.placeholders@)]
                    before.len() > 0 && before[0].name@ == main_name() && laid_out(before, p.subroutines@, p.placeholders@)
                        && p.placeholders@ == self.placeholders@ + start_bindings(before) && expands_to(
                        self.subroutines@,
                        before,
                        self.macros@,
                    )
            },
            r is Ok ==> self.errors@.len() == 0,
            !self.failed && self.main && self.errors@.len() == 0 && (forall|k: int|
                0 <= k < self.subroutines@.len() ==> calls_resolve(
                    #[trigger] self.subroutines@[k].instructions@,
                    self.macros@,
                )) ==> r is Ok,
            r matches Err(es) ==> es@.len() > 0,
            self.failed ==> r is Err,
            !self.main ==> r is Err,
            !self.failed && !self.main ==> (r matches Err(es) && es@.last().code == ErrorCode::NoMainSubroutine
                && es@.last().critical),
    {
        let mut errors = self.errors;
        if self.failed {
            return Err(errors);
        }
        if !self.main {
            errors.push(CompilerError::new(ErrorCode::NoMainSubroutine, &self.root, 0, true));
            return Err(errors);
        }
        let mut subroutines = self.subroutines;
        let ghost subs0 = subroutines@;
        let mut i: usize = 0;
        while i < subroutines.len()
            invariant
                i <= subroutines@.len(),
                subroutines@.len() == subs0.len(),
                subroutines@[0].name@ == main_name(),
                subs0.len() > 0,
                self.main,
                !self.failed,
                forall|k: int| i <= k < subroutines@.len() ==> #[trigger] subroutines@[k] == subs0[k],
                errors@.len() == 0 ==> forall|k: int| 0 <= k < i ==> expanded(#[trigger] subroutines@[k].instructions@),
                forall|k: int| 0 <= k < subs0.len() ==> all_fresh(#[trigger] subs0[k].instructions@),
                subs0 == self.subroutines@,
                errors@.len() >= self.errors@.len(),
                errors@.len() == 0 ==> forall|k: int|
                    0 <= k < i ==> (#[trigger] subroutines@[k]).name == subs0[k].name && calls_expanded(
                        subs0[k].instructions@,
                        subroutines@[k].instructions@,
                        self.macros@,
                    ),
                (forall|k: int| 0 <= k < subs0.len() ==> calls_resolve(#[trigger] subs0[k].instructions@, self.macros@))
                    ==> errors@.len() == self.errors@.len(),
            decreases subroutines@.len() - i,
        {
            let ghost name0 = subroutines@[0].name;
            let ghost prev = subroutines@;
            assert(subroutines@[i as int] == subs0[i as int]);
            match subroutines[i].populate_macros(&self.macros) {
                Ok(()) => {},
                Err(mut es) => {
                    if has_critical(&es) {
                        errors.append(&mut es);
                        return Err(errors);
                    }
                    errors.append(&mut es);
                },
            }
            assert(subroutines@[0].name == name0);
            assert(forall|k: int| 0 <= k < subroutines@.len() && k != i ==> subroutines@[k] == prev[k]);
            i = i + 1;
        }
        if errors.len() > 0 {
            return Err(errors);
        }
        let ghost before = subroutines@;
        let mut node = ProgramNode { subroutines, placeholders: self.placeholders };
        assert(all_expanded(node.subroutines@));
        node.calculate_placeholders();
        proof {
            reveal(sub_laid_out);
            assert(sub_laid_out(before[0], node.subroutines@[0], node.placeholders@, start_of(before, 0)));
            lemma_laid_out_bindings(before, node.subroutines@, node.placeholders@);
            assert(forall|k: int|
                0 <= k < before.len() ==> (#[trigger] before[k]).name == self.subroutines@[k].name && calls_expanded(
                    self.subroutines@[k].instructions@,
                    before[k].instructions@,
                    self.macros@,
                ));
            assert(laid_out(before, node.subroutines@, node.placeholders@));
            assert(before.len() > 0 && before[0].name@ == main_name());
            assert(node.placeholders@ == self.placeholders@ + start_bindings(before));
            assert(before.len() == self.subroutines@.len());
            assert(expands_to(self.subroutines@, before, self.macros@));
        }
        Ok(node)
    }
}

impl ProgramParse {
    /// Parses one top-level item at the cursor, which is on a token that is
    /// neither a newline nor the end. A macro definition is registered; a
    /// subroutine is added (`main` of the root file goes first); `@const`
    /// binds a name to a 16-bit literal; an `@include` of a file not loaded
    /// yet returns its path, and of a loaded one does nothing; any other
    /// token is a non-critical error and is skipped. A critical error stops
    /// the parse.
    pub fn parse_item(&mut self, parser: &mut Parser) -> (r: Option<String>)
        requires
            old(parser).wf(),
            old(self).wf(),
            !old(self).failed,
            old(parser).current < old(parser).tokens@.len(),
            !(old(parser).peek_spec().token_type is NewLine),
            !(old(parser).peek_spec().token_type is EndOfFile),
        ensures
            final(parser).wf(),
            final(self).wf(),
            final(parser).tokens == old(parser).tokens,
            final(parser).files == old(parser).files,
            final(parser).current > old(parser).current,
            final(self).root == old(self).root,
            r is Some ==> !final(self).failed,
            r matches Some(path) ==> !(exists|i: int|
                0 <= i < final(parser).files@.len() && (#[trigger] final(parser).files@[i])@ == path@),
            forall|k: int|
                #[trigger] header_ok(old(parser).tokens@, old(parser).current as int, k) ==> {
                    &&& !final(self).failed
                    &&& final(self).errors == old(self).errors
                    &&& final(parser).current == capture_end(old(parser).tokens@, old(parser).current + 7 + k)
                },
            sub_header(old(parser).tokens@, old(parser).current as int) && all_lines_ok(
                body_from(old(parser).tokens@, old(parser).current + 3).0,
            ) ==> {
                let item = (old(parser).tokens@[old(parser).current as int], body_from(old(parser).tokens@, old(parser).current + 3).0);
                &&& !final(self).failed
                &&& final(self).errors == old(self).errors
                &&& final(parser).current == body_from(old(parser).tokens@, old(parser).current + 3).1
                &&& if is_root_main(item.0, old(parser).files@[0]@) {
                    &&& final(self).main
                    &&& final(self).subroutines@ == seq![final(self).subroutines@[0]] + old(self).subroutines@
                    &&& sub_matches(final(self).subroutines@[0], item)
                } else {
                    &&& final(self).main == old(self).main
                    &&& final(self).subroutines@ == old(self).subroutines@.push(final(self).subroutines@.last())
                    &&& sub_matches(final(self).subroutines@.last(), item)
                }
            },
            const_ok(old(parser).tokens@, old(parser).current as int) ==> {
                &&& !final(self).failed
                &&& final(self).errors == old(self).errors
                &&& final(parser).current == old(parser).current + 3
            },
            old(parser).peek_spec().token_type is Macro ==> {
                &&& r is None
                &&& final(self).subroutines == old(self).subroutines
                &&& final(self).placeholders == old(self).placeholders
                &&& final(self).main == old(self).main
                &&& final(self).failed || (final(self).macros@.len() == old(self).macros@.len() + 1
                    && final(self).macros@.drop_last() == old(self).macros@ && final(self).errors == old(self).errors
                    && macro_matches(final(self).macros@.last(), old(parser).tokens@, old(parser).current as int))
            },
            old(parser).peek_spec().token_type matches TokenType::Identifier(n) ==> {
                let is_main = n@ == main_name() && old(parser).peek_spec().file@ == old(parser).files@[0]@;
                &&& r is None
                &&& final(self).macros == old(self).macros
                &&& final(self).placeholders == old(self).placeholders
                &&& (final(self).errors == old(self).errors && !final(self).failed && if is_main {
                    &&& final(self).main
                    &&& final(self).subroutines@.len() == old(self).subroutines@.len() + 1
                    &&& final(self).subroutines@[0].name@ == n@
                    &&& final(self).subroutines@.subrange(1, final(self).subroutines@.len() as int)
                        == old(self).subroutines@
                } else {
                    &&& final(self).main == old(self).main
                    &&& final(self).subroutines@.drop_last() == old(self).subroutines@
                    &&& final(self).subroutines@.len() == old(self).subroutines@.len() + 1
                    &&& final(self).subroutines@.last().name@ == n@
                }) || (final(self).subroutines == old(self).subroutines && final(self).main == old(self).main
                    && final(self).errors@.len() > old(self).errors@.len())
            },
            sub_header(old(parser).tokens@, old(parser).current as int) && all_lines_ok(
                body_from(old(parser).tokens@, old(parser).current + 3).0,
            ) && call_tokens(body_from(old(parser).tokens@, old(parser).current + 3).0).len() == 0 && (forall|k: int|
                0 <= k < old(self).subroutines@.len() ==> no_calls(#[trigger] old(self).subroutines@[k].instructions@))
                ==> forall|k: int|
                0 <= k < final(self).subroutines@.len() ==> no_calls(#[trigger] final(self).subroutines@[k].instructions@),
            old(parser).peek_spec().token_type is Constant ==> {
                &&& r is None
                &&& final(self).subroutines == old(self).subroutines
                &&& final(self).macros == old(self).macros
                &&& final(self).main == old(self).main
                &&& final(self).failed || (final(self).errors == old(self).errors
                    && final(self).placeholders@.len() == old(self).placeholders@.len() + 1
                    && final(self).placeholders@.drop_last() == old(self).placeholders@ && (old(
                    parser,
                ).tokens@[old(parser).current + 1].token_type matches TokenType::Identifier(name)
                    && final(self).placeholders@.last().0 == name@) && const_matches(
                    final(self).placeholders@.last(),
                    old(parser).tokens@,
                    old(parser).current as int,
                ))
            },
            old(parser).peek_spec().token_type is Include ==> {
                &&& final(self).subroutines == old(self).subroutines
                &&& final(self).macros == old(self).macros
                &&& final(self).main == old(self).main
                &&& final(self).placeholders == old(self).placeholders
                &&& final(self).failed || final(self).errors == old(self).errors
            },
            !(old(parser).peek_spec().token_type is Macro || old(parser).peek_spec().token_type is Identifier
                || old(parser).peek_spec().token_type is Constant || old(parser).peek_spec().token_type is Include) ==> {
                &&& r is None
                &&& final(parser).current == old(parser).current + 1
                &&& final(self).subroutines == old(self).subroutines
                &&& final(self).macros == old(self).macros
                &&& final(self).main == old(self).main
                &&& final(self).placeholders == old(self).placeholders
                &&& !final(self).failed
                &&& final(self).errors@.len() == old(self).errors@.len() + 1
                &&& final(self).errors@.drop_last() == old(self).errors@
                &&& !final(self).errors@.last().critical
            },
    {
        let token = parser.peek().copy();
        let mark = parser.current;
        let ghost tokens0 = parser.tokens;
        let state = self;
        match &token.token_type {
            TokenType::Macro => match Macro::populate(parser) {
                Ok(m) => {
                    state.macros.push(m);
                },
                Err(e) => {
                    state.errors.push(e);
                    state.failed = true;
                },
            },
            TokenType::Identifier(_) => match SubroutineNode::populate(parser) {
                Ok(sub) => {
                    let ghost before = state.subroutines@;
                    proof {
                        let lines = body_from(tokens0@, mark + 3).0;
                        if sub_header(tokens0@, mark as int) && all_lines_ok(lines) && call_tokens(lines).len() == 0 {
                            lemma_no_calls(lines, sub.instructions@);
                        }
                    }
                    let root_file = token.file == parser.files[0];
                    if is_main(&sub.name) && root_file {
                        state.main = true;
                        state.subroutines.insert(0, sub);
                        proof {
                            assert forall|k: int|
                                0 <= k < state.subroutines@.len() implies all_fresh(
                                    #[trigger] state.subroutines@[k].instructions@,
                                ) by {
                                if k > 0 {
                                    assert(state.subroutines@[k] == before[k - 1]);
                                }
                            }
                        }
                    } else {
                        state.subroutines.push(sub);
                        proof {
                            assert forall|k: int|
                                0 <= k < state.subroutines@.len() implies all_fresh(
                                    #[trigger] state.subroutines@[k].instructions@,
                                ) by {
                                if k < before.len() {
                                    assert(state.subroutines@[k] == before[k]);
                                }
                            }
                        }
                    }
                },
                Err(mut es) => {
                    if has_critical(&es) {
                        state.failed = true;
                    }
                    state.errors.append(&mut es);
                },
            },
            TokenType::Include => {
                parser.advance();
                let mut path = String::new();
                let mut any = false;
                loop
                    invariant
                        parser.wf(),
                        parser.current > mark,
                        parser.tokens == tokens0,
                        parser.files == old(parser).files,
                    decreases parser.tokens@.len() - parser.current,
                {
                    let t = parser.peek().copy();
                    match &t.token_type {
                        TokenType::Identifier(p) => {
                            if any {
                                append_string(&mut path, &" ".to_owned());
                            }
                            append_string(&mut path, p);
                            any = true;
                            assert(parser.current < parser.tokens@.len());
                            parser.advance();
                        },
                        _ => {
                            parser.advance();
                            break;
                        },
                    }
                }
                if !any {
                    state.errors.push(CompilerError::expected("valid path", parser.current(), true));
                    state.failed = true;
                } else if !parser.has_file(&path) {
                    return Some(path);
                }
            },
            TokenType::Constant => {
                parser.advance();
                let t = parser.advance();
                match &t.token_type {
                    TokenType::Identifier(name) => match Imm16::populate(parser) {
                        Ok(value) => {
                            state.placeholders.insert(name.clone(), value.0);
                        },
                        Err(e) => {
                            state.errors.push(e);
                            state.failed = true;
                        },
                    },
                    _ => {
                        state.errors.push(CompilerError::expected("Identifier", &t, true));
                        state.failed = true;
                    },
                }
            },
            _ => {
                state.errors.push(
                    CompilerError::expected("macro, subroutine, include, or end of file", &token, false),
                );
                parser.advance();
            },
        }
        None
    }
}

impl ProgramNode {
    /// Parses top-level items: macro definitions, subroutines (`main` of the
    /// root file goes first), `@const` bindings and `@include` lines. Stops
    /// at the end of the stream, at a critical error, or at an include of a
    /// file not loaded yet, which it hands back with the cursor past the
    /// include line.
    pub fn populate(parser: &mut Parser, state: &mut ProgramParse) -> (r: ParseStep)
        requires
            old(parser).wf(),
            old(state).wf(),
        ensures
            final(parser).wf(),
            final(state).wf(),
            old(state).failed ==> final(state).failed && r is Finished,
            r is Finished && !final(state).failed ==> final(parser).peek_spec().token_type is EndOfFile,
            r matches ParseStep::NeedFile(path) ==> !(exists|i: int|
                0 <= i < final(parser).files@.len() && (#[trigger] final(parser).files@[i])@ == path@),
            items_ok(old(parser).tokens@, old(parser).current as int) && !old(state).failed ==> r is Finished
                && !final(state).failed && final(state).errors == old(state).errors,
            items_ok(old(parser).tokens@, old(parser).current as int) && !old(state).failed ==> {
                let n = item_counts(old(parser).tokens@, old(parser).current as int);
                &&& final(state).macros@.len() == old(state).macros@.len() + n.0
                &&& final(state).subroutines@.len() == old(state).subroutines@.len() + n.1
                &&& final(state).placeholders@.len() == old(state).placeholders@.len() + n.2
            },
            items_ok(old(parser).tokens@, old(parser).current as int) && !old(state).failed && has_root_main(
                old(parser).tokens@,
                old(parser).current as int,
                old(parser).files@[0]@,
            ) ==> final(state).main,
            items_ok(old(parser).tokens@, old(parser).current as int) && !old(state).failed ==> final(state).main == (
            old(state).main || has_root_main(old(parser).tokens@, old(parser).current as int, old(parser).files@[0]@)),
            items_ok(old(parser).tokens@, old(parser).current as int) && !old(state).failed ==> exists|
                news: Seq<SubroutineNode>,
            |
                #![trigger arrange(old(state).subroutines@, news, sub_items(old(parser).tokens@, old(parser).current as int), old(parser).files@[0]@)]
                news.len() == sub_items(old(parser).tokens@, old(parser).current as int).len() && (forall|k: int|
                    0 <= k < news.len() ==> sub_matches(
                        #[trigger] news[k],
                        sub_items(old(parser).tokens@, old(parser).current as int)[k],
                    )) && final(state).subroutines@ == arrange(
                    old(state).subroutines@,
                    news,
                    sub_items(old(parser).tokens@, old(parser).current as int),
                    old(parser).files@[0]@,
                ),
            items_ok(old(parser).tokens@, old(parser).current as int) && !old(state).failed ==> ({
                let ms = item_starts(old(parser).tokens@, old(parser).current as int, 0);
                let n = old(state).macros@.len() as int;
                &&& final(state).macros@.len() == n + ms.len()
                &&& final(state).macros@.subrange(0, n) == old(state).macros@
                &&& forall|k: int| 0 <= k < ms.len() ==> macro_matches(#[trigger] final(state).macros@[n + k], old(parser).tokens@, ms[k])
            }),
            items_ok(old(parser).tokens@, old(parser).current as int) && !old(state).failed ==> ({
                let cs = item_starts(old(parser).tokens@, old(parser).current as int, 2);
                let n = old(state).placeholders@.len() as int;
                &&& final(state).placeholders@.len() == n + cs.len()
                &&& final(state).placeholders@.subrange(0, n) == old(state).placeholders@
                &&& forall|k: int| 0 <= k < cs.len() ==> const_matches(#[trigger] final(state).placeholders@[n + k], old(parser).tokens@, cs[k])
            }),
            items_ok(old(parser).tokens@, old(parser).current as int) && !old(state).failed && items_call_free(
                old(parser).tokens@,
                old(parser).current as int,
            ) && (forall|k: int| 0 <= k < old(state).subroutines@.len() ==> no_calls(#[trigger] old(state).subroutines@[k].instructions@))
                ==> forall|k: int|
                0 <= k < final(state).subroutines@.len() ==> no_calls(#[trigger] final(state).subroutines@[k].instructions@),
    {
        let ghost ts = parser.tokens@;
        let ghost good = items_ok(ts, parser.current as int) && !state.failed;
        let ghost root = parser.files@[0]@;
        let ghost all_items = sub_items(ts, parser.current as int);
        let ghost mut done: Seq<(Token, Seq<Seq<Token>>)> = Seq::empty();
        let ghost mut news: Seq<SubroutineNode> = Seq::empty();
        let ghost mut found = false;
        let ghost mut done_m: Seq<int> = Seq::empty();
        let ghost mut done_c: Seq<int> = Seq::empty();
        let ghost nm = state.macros@.len() as int;
        let ghost nc = state.placeholders@.len() as int;
        proof {
            assert(all_items =~= done + sub_items(ts, parser.current as int));
            assert(item_starts(ts, parser.current as int, 0) =~= done_m + item_starts(ts, parser.current as int, 0));
            assert(item_starts(ts, parser.current as int, 2) =~= done_c + item_starts(ts, parser.current as int, 2));
            assert(state.macros@.subrange(0, nm) =~= state.macros@);
            assert(state.placeholders@.subrange(0, nc) =~= state.placeholders@);
        }
        loop
            invariant
                nm == old(state).macros@.len(),
                nc == old(state).placeholders@.len(),
                good ==> item_starts(ts, old(parser).current as int, 0) == done_m + item_starts(ts, parser.current as int, 0),
                good ==> item_starts(ts, old(parser).current as int, 2) == done_c + item_starts(ts, parser.current as int, 2),
                good ==> state.macros@.len() == nm + done_m.len() && state.macros@.subrange(0, nm) == old(state).macros@,
                good ==> state.placeholders@.len() == nc + done_c.len() && state.placeholders@.subrange(0, nc)
                    == old(state).placeholders@,
                good ==> forall|k: int| 0 <= k < done_m.len() ==> macro_matches(#[trigger] state.macros@[nm + k], ts, done_m[k]),
                good ==> forall|k: int| 0 <= k < done_c.len() ==> const_matches(#[trigger] state.placeholders@[nc + k], ts, done_c[k]),
                root == old(parser).files@[0]@,
                all_items == sub_items(ts, old(parser).current as int),
                good ==> all_items == done + sub_items(ts, parser.current as int),
                good ==> news.len() == done.len(),
                good ==> forall|k: int| 0 <= k < news.len() ==> sub_matches(#[trigger] news[k], done[k]),
                good ==> state.subroutines@ == arrange(old(state).subroutines@, news, done, root),
                good ==> has_root_main(ts, old(parser).current as int, root) == (found || has_root_main(
                    ts,
                    parser.current as int,
                    root,
                )),
                good ==> state.main == (old(state).main || found),
                parser.wf(),
                state.wf(),
                old(state).failed ==> state.failed,
                parser.tokens@ == ts,
                ts == old(parser).tokens@,
                good == (items_ok(ts, old(parser).current as int) && !old(state).failed),
                good ==> items_ok(ts, parser.current as int) && !state.failed && state.errors == old(state).errors,
                parser.files == old(parser).files,
                good ==> ({
                    let n0 = item_counts(ts, old(parser).current as int);
                    let n = item_counts(ts, parser.current as int);
                    &&& state.macros@.len() + n.0 == old(state).macros@.len() + n0.0
                    &&& state.subroutines@.len() + n.1 == old(state).subroutines@.len() + n0.1
                    &&& state.placeholders@.len() + n.2 == old(state).placeholders@.len() + n0.2
                }),
                good && has_root_main(ts, old(parser).current as int, old(parser).files@[0]@) ==> state.main
                    || has_root_main(ts, parser.current as int, old(parser).files@[0]@),
                good && items_call_free(ts, old(parser).current as int) && (forall|k: int|
                    0 <= k < old(state).subroutines@.len() ==> no_calls(#[trigger] old(state).subroutines@[k].instructions@))
                    ==> items_call_free(ts, parser.current as int) && forall|k: int|
                    0 <= k < state.subroutines@.len() ==> no_calls(#[trigger] state.subroutines@[k].instructions@),
            ensures
                parser.wf(),
                state.wf(),
                old(state).failed ==> state.failed,
                !state.failed ==> parser.peek_spec().token_type is EndOfFile,
                good ==> !state.failed && state.errors == old(state).errors,
                parser.files == old(parser).files,
                good ==> ({
                    let n0 = item_counts(ts, old(parser).current as int);
                    &&& state.macros@.len() == old(state).macros@.len() + n0.0
                    &&& state.subroutines@.len() == old(state).subroutines@.len() + n0.1
                    &&& state.placeholders@.len() == old(state).placeholders@.len() + n0.2
                }),
                good && has_root_main(ts, old(parser).current as int, old(parser).files@[0]@) ==> state.main,
                good && items_call_free(ts, old(parser).current as int) && (forall|k: int|
                    0 <= k < old(state).subroutines@.len() ==> no_calls(#[trigger] old(state).subroutines@[k].instructions@))
                    ==> forall|k: int|
                    0 <= k < state.subroutines@.len() ==> no_calls(#[trigger] state.subroutines@[k].instructions@),
                nm == old(state).macros@.len(),
                nc == old(state).placeholders@.len(),
                good ==> item_starts(ts, old(parser).current as int, 0) == done_m,
                good ==> item_starts(ts, old(parser).current as int, 2) == done_c,
                good ==> state.macros@.len() == nm + done_m.len() && state.macros@.subrange(0, nm) == old(state).macros@,
                good ==> state.placeholders@.len() == nc + done_c.len() && state.placeholders@.subrange(0, nc)
                    == old(state).placeholders@,
                good ==> forall|k: int| 0 <= k < done_m.len() ==> macro_matches(#[trigger] state.macros@[nm + k], ts, done_m[k]),
                good ==> forall|k: int| 0 <= k < done_c.len() ==> const_matches(#[trigger] state.placeholders@[nc + k], ts, done_c[k]),
                good ==> all_items == done,
                good ==> news.len() == done.len(),
                good ==> forall|k: int| 0 <= k < news.len() ==> sub_matches(#[trigger] news[k], done[k]),
                good ==> state.subroutines@ == arrange(old(state).subroutines@, news, done, root),
                good ==> state.main == (old(state).main || has_root_main(ts, old(parser).current as int, root)),
            decreases parser.tokens@.len() - parser.current,
        {
            if state.failed {
                break;
            }
            let ghost tokens0 = parser.tokens;
            let ghost c0 = parser.current;
            parser.skip_new_lines();
            proof {
                lemma_items_skip(ts, c0 as int, parser.current as int);
                lemma_facts_skip(ts, c0 as int, parser.current as int, old(parser).files@[0]@);
                lemma_counts_skip(ts, c0 as int, parser.current as int);
                lemma_sub_items_skip(ts, c0 as int, parser.current as int);
                lemma_starts_skip(ts, c0 as int, parser.current as int, 0);
                lemma_starts_skip(ts, c0 as int, parser.current as int, 2);
            }
            let token = parser.peek().copy();
            if parser.is_at_end() {
                assert(token.token_type is EndOfFile);
                assert(done + Seq::<(Token, Seq<Seq<Token>>)>::empty() =~= done);
                assert(done_m + Seq::<int>::empty() =~= done_m);
                assert(done_c + Seq::<int>::empty() =~= done_c);
                break;
            }
            match token.token_type {
                TokenType::EndOfFile => {
                    assert(done + Seq::<(Token, Seq<Seq<Token>>)>::empty() =~= done);
                    assert(done_m + Seq::<int>::empty() =~= done_m);
                    assert(done_c + Seq::<int>::empty() =~= done_c);
                    break;
                },
                _ => {},
            }
            let ghost c1 = parser.current as int;
            let ghost subs_before = state.subroutines@;
            let ghost macros_before = state.macros@;
            let ghost consts_before = state.placeholders@;
            proof {
                if good {
                    assert(items_ok(ts, c1));
                    assert(!(ts[c1].token_type is Include));
                    if ts[c1].token_type is Macro {
                        let k = choose|k: int| header_ok(ts, c1, k);
                        assert(header_ok(ts, c1, k));
                    }
                }
            }
            match state.parse_item(parser) {
                Some(path) => {
                    return ParseStep::NeedFile(path);
                },
                None => {},
            }
            proof {
                if good && ts[c1].token_type is Macro {
                    let k = choose|k: int| header_ok(ts, c1, k);
                    let e = capture_end(ts, c1 + 7 + k);
                    assert(item_starts(ts, c1, 0) == seq![c1] + item_starts(ts, e, 0));
                    assert(item_starts(ts, c1, 2) == item_starts(ts, e, 2));
                    let dm2 = done_m.push(c1);
                    assert(item_starts(ts, old(parser).current as int, 0) =~= dm2 + item_starts(ts, e, 0));
                    assert(state.macros@.subrange(0, nm) =~= macros_before.subrange(0, nm));
                    assert forall|j: int| 0 <= j < dm2.len() implies macro_matches(#[trigger] state.macros@[nm + j], ts, dm2[j]) by {
                        if j < done_m.len() {
                            assert(state.macros@[nm + j] == macros_before[nm + j]);
                        }
                    }
                    done_m = dm2;
                }
                if good && ts[c1].token_type is Constant {
                    assert(item_starts(ts, c1, 2) == seq![c1] + item_starts(ts, c1 + 3, 2));
                    assert(item_starts(ts, c1, 0) == item_starts(ts, c1 + 3, 0));
                    let dc2 = done_c.push(c1);
                    assert(item_starts(ts, old(parser).current as int, 2) =~= dc2 + item_starts(ts, c1 + 3, 2));
                    assert(state.placeholders@.subrange(0, nc) =~= consts_before.subrange(0, nc));
                    assert forall|j: int| 0 <= j < dc2.len() implies const_matches(#[trigger] state.placeholders@[nc + j], ts, dc2[j]) by {
                        if j < done_c.len() {
                            assert(state.placeholders@[nc + j] == consts_before[nc + j]);
                        }
                    }
                    done_c = dc2;
                }
                if good && ts[c1].token_type is Identifier {
                    let e1 = body_from(ts, c1 + 3).1;
                    assert(item_starts(ts, c1, 0) == item_starts(ts, e1, 0));
                    assert(item_starts(ts, c1, 2) == item_starts(ts, e1, 2));
                    let item = (ts[c1], body_from(ts, c1 + 3).0);
                    let e = body_from(ts, c1 + 3).1;
                    assert(sub_items(ts, c1) == seq![item] + sub_items(ts, e));
                    let s_new = if is_root_main(item.0, root) {
                        state.subroutines@[0]
                    } else {
                        state.subroutines@.last()
                    };
                    let done2 = done.push(item);
                    let news2 = news.push(s_new);
                    assert(all_items =~= done2 + sub_items(ts, e));
                    assert(news2.drop_last() =~= news);
                    assert(done2.drop_last() =~= done);
                    assert(state.subroutines@ == arrange(old(state).subroutines@, news2, done2, root));
                    assert forall|k: int| 0 <= k < news2.len() implies sub_matches(#[trigger] news2[k], done2[k]) by {
                        if k < news.len() {
                            assert(news2[k] == news[k]);
                            assert(done2[k] == done[k]);
                        }
                    }
                    found = found || is_root_main(item.0, root);
                    done = done2;
                    news = news2;
                }
            }
        }
        ParseStep::Finished
    }
}

/// `p` is the program that the items of `ts` declare: `news` are their
/// subroutines (one per subroutine item, in source order, root `main`s to
/// the front), `macros` and `consts` are the macro definitions and
/// constants of the items in order, `before` is the subroutine list with
/// every macro call expanded against `macros`, and `p` is `before` laid out
/// under `consts` followed by the subroutine addresses.
pub open spec fn declared_by(
    p: ProgramNode,
    ts: Seq<Token>,
    root: Seq<char>,
    news: Seq<SubroutineNode>,
    macros: Seq<Macro>,
    consts: Seq<(Seq<char>, u16)>,
    before: Seq<SubroutineNode>,
) -> bool {
    let items = sub_items(ts, 0);
    &&& news.len() == items.len()
    &&& forall|k: int| 0 <= k < news.len() ==> sub_matches(#[trigger] news[k], items[k])
    &&& expands_to(arrange(Seq::empty(), news, items, root), before, macros)
    &&& laid_out(before, p.subroutines@, p.placeholders@)
    &&& p.placeholders@ == consts + start_bindings(before)
    &&& macros.len() == item_starts(ts, 0, 0).len()
    &&& forall|k: int| 0 <= k < macros.len() ==> macro_matches(#[trigger] macros[k], ts, item_starts(ts, 0, 0)[k])
    &&& consts.len() == item_starts(ts, 0, 2).len()
    &&& forall|k: int| 0 <= k < consts.len() ==> const_matches(#[trigger] consts[k], ts, item_starts(ts, 0, 2)[k])
}

/// Parses a token stream that came from `file` with no access to other
/// files: an `@include` of any file not already loaded fails with
/// `NoSuchFile`. A stream that does not end with `EndOfFile` is read as if
/// it did.
/// A stream whose items all parse, that defines `main` in `file`, and whose
/// subroutines call no macro, always parses.
pub fn parse(tokens: Vec<Token>, file: String) -> (r: Result<ProgramNode, Vec<CompilerError>>)
    ensures
        r matches Ok(p) ==> p.subroutines@.len() > 0 && p.subroutines@[0].name@ == main_name() && all_expanded(
            p.subroutines@,
        ),
        r matches Err(es) ==> es@.len() > 0,
        tokens@.len() > 0 && tokens@.last().token_type is EndOfFile && items_ok(tokens@, 0) && has_root_main(
            tokens@,
            0,
            file@,
        ) && items_call_free(tokens@, 0) ==> r is Ok,
        tokens@.len() > 0 && tokens@.last().token_type is EndOfFile && items_ok(tokens@, 0) && !has_root_main(
            tokens@,
            0,
            file@,
        ) ==> (r matches Err(es) && es@.last().code == ErrorCode::NoMainSubroutine && es@.last().critical),
        tokens@.len() > 0 && tokens@.last().token_type is EndOfFile && items_ok(tokens@, 0) ==> (r matches Ok(p)
            ==> exists|
            news: Seq<SubroutineNode>,
            macros: Seq<Macro>,
            consts: Seq<(Seq<char>, u16)>,
            before: Seq<SubroutineNode>,
        | #[trigger] declared_by(p, tokens@, file@, news, macros, consts, before)),
{
    let ghost ts0 = tokens@;
    let mut tokens = tokens;
    let n = tokens.len();
    let ends = n > 0 && match tokens[n - 1].token_type {
        TokenType::EndOfFile => true,
        _ => false,
    };
    if !ends {
        tokens.push(Token::new(TokenType::EndOfFile, 0, file.clone()));
    }
    let mut parser = Parser::new(tokens, file.clone());
    let mut state = ProgramParse::new(file);
    proof {
        if ends {
            assert(parser.tokens@ == ts0);
        }
        assert(state.subroutines@ =~= Seq::<SubroutineNode>::empty());
        assert(state.macros@ =~= Seq::<Macro>::empty());
        assert(state.placeholders@ =~= Seq::<(Seq<char>, u16)>::empty());
        assert(parser.files@[0]@ == file@);
    }
    match ProgramNode::populate(&mut parser, &mut state) {
        ParseStep::NeedFile(path) => {
            state.supply_file(&mut parser, &path, None);
            ProgramNode::populate(&mut parser, &mut state);
        },
        ParseStep::Finished => {},
    }
    proof {
        if ts0.len() > 0 && ts0.last().token_type is EndOfFile && items_ok(ts0, 0) && has_root_main(ts0, 0, file@)
            && items_call_free(ts0, 0) {
            assert forall|k: int| 0 <= k < state.subroutines@.len() implies calls_resolve(
                #[trigger] state.subroutines@[k].instructions@,
                state.macros@,
            ) by {
                let nodes = state.subroutines@[k].instructions@;
                assert(no_calls(nodes));
                assert forall|i: int| 0 <= i < nodes.len() implies !(#[trigger] nodes[i] is Macro) by {}
            }
        }
    }
    let ghost subs = state.subroutines@;
    let ghost macros = state.macros@;
    let ghost consts = state.placeholders@;
    let r = state.finish();
    proof {
        if ts0.len() > 0 && ts0.last().token_type is EndOfFile && items_ok(ts0, 0) {
            if r is Ok {
                let p = r->Ok_0;
                let news = choose|news: Seq<SubroutineNode>|
                    #![trigger arrange(Seq::<SubroutineNode>::empty(), news, sub_items(ts0, 0), file@)]
                    news.len() == sub_items(ts0, 0).len() && (forall|k: int|
                        0 <= k < news.len() ==> sub_matches(#[trigger] news[k], sub_items(ts0, 0)[k]))
                        && subs == arrange(Seq::<SubroutineNode>::empty(), news, sub_items(ts0, 0), file@);
                let before = choose|before: Seq<SubroutineNode>|
                    #![trigger laid_out(before, p.subroutines@, p.placeholders@)]
                    before.len() > 0 && before[0].name@ == main_name() && laid_out(before, p.subroutines@, p.placeholders@)
                        && p.placeholders@ == consts + start_bindings(before) && expands_to(subs, before, macros);
                assert forall|k: int| 0 <= k < macros.len() implies macro_matches(
                    #[trigger] macros[k],
                    ts0,
                    item_starts(ts0, 0, 0)[k],
                ) by {
                    assert(macros[0 + k] == macros[k]);
                }
                assert forall|k: int| 0 <= k < consts.len() implies const_matches(
                    #[trigger] consts[k],
                    ts0,
                    item_starts(ts0, 0, 2)[k],
                ) by {
                    assert(consts[0 + k] == consts[k]);
                }
                assert(declared_by(p, ts0, file@, news, macros, consts, before));
            }
        }
    }
    r
}

} // verus!
