use super::interpretation::{Interpretation, InterpretationView};
use crate::interner::{name_view, Interner};
use crate::text::{join, joined, sort, sorted, texts, Text};
use vstd::string::StringExecFns;
use super::listing::{
    ascending, features_of, lemma_ascending_lists, lemma_gathered_lists,
    lemma_listing_determines_features, lemma_listing_is_unique,
};
use crate::syntax::{is_listing, listing, FeatureSet, Key};
use crate::syntax_node::{SyntaxNode, SyntaxNodeView};
use crate::trie::Label;
use multimap::MultiMap;
use vstd::prelude::*;

verus! {

#[verifier::external_type_specification]
#[verifier::external_body]
#[verifier::reject_recursive_types(K)]
#[verifier::reject_recursive_types(V)]
#[verifier::reject_recursive_types(S)]
pub struct ExMultiMap<K, V, S>(MultiMap<K, V, S>);

/// What a syntax node is held under: its lexical item, if it is one, and
/// the pairs of its feature set in ascending order of their categories.
pub type Code = (Option<Key>, Vec<Label>);

/// The content of a [`Code`].
pub type CodeView = (Option<Key>, Seq<Label>);

/// The content of the code `c`.
pub open spec fn code_view(c: Code) -> CodeView {
    (c.0, c.1@)
}

/// Whether `c` is the code of a syntax node: a lexical item without
/// pairs, or pairs in strictly ascending order of their categories.
pub open spec fn is_code(c: CodeView) -> bool {
    match c.0 {
        Some(_) => c.1.len() == 0,
        None => ascending(c.1),
    }
}

/// Whether the syntax node `n` has a code: every lexical item has, and
/// every feature set whose pairs can be listed.
pub open spec fn listable(n: SyntaxNodeView) -> bool {
    match n {
        SyntaxNodeView::Lexi(_) => true,
        SyntaxNodeView::Feat(fs) => is_listing(listing(fs), fs),
    }
}

/// The code of the syntax node `n`.
pub open spec fn code_of(n: SyntaxNodeView) -> CodeView {
    match n {
        SyntaxNodeView::Lexi(k) => (Some(k), Seq::empty()),
        SyntaxNodeView::Feat(fs) => (None, listing(fs)),
    }
}

/// The syntax node with the code `c`.
pub open spec fn node_of(c: CodeView) -> SyntaxNodeView {
    match c.0 {
        Some(k) => SyntaxNodeView::Lexi(k),
        None => SyntaxNodeView::Feat(features_of(c.1)),
    }
}

/// A code is the code of its syntax node.
pub proof fn lemma_code_has_node(c: CodeView)
    requires
        is_code(c),
    ensures
        listable(node_of(c)),
        code_of(node_of(c)) == c,
{
    match c.0 {
        Some(_) => {
            assert(c.1 =~= Seq::empty());
        },
        None => {
            let fs = features_of(c.1);
            lemma_ascending_lists(c.1);
            lemma_listing_is_unique(c.1, listing(fs), fs);
        },
    }
}

/// A syntax node that has a code is the syntax node of its code.
pub proof fn lemma_node_has_code(n: SyntaxNodeView)
    requires
        listable(n),
    ensures
        is_code(code_of(n)),
        node_of(code_of(n)) == n,
{
    match n {
        SyntaxNodeView::Lexi(_) => {},
        SyntaxNodeView::Feat(fs) => {
            let s = listing(fs);
            lemma_ascending_lists(s);
            lemma_listing_determines_features(s, fs, features_of(s));
        },
    }
}

/// The content of a list of interpretations.
pub open spec fn interpretations(v: Seq<Interpretation>) -> Seq<InterpretationView> {
    v.map_values(|i: Interpretation| i@)
}

/// What the multimap holds: for each key the values that were inserted
/// under it, in the order in which they were inserted.
pub uninterp spec fn held(m: MultiMap<Code, Interpretation>) -> Map<CodeView, Seq<InterpretationView>>;

/// The values held under `k`, none if the key is not there.
pub open spec fn held_under<K>(m: Map<K, Seq<InterpretationView>>, k: K) -> Seq<InterpretationView> {
    if m.contains_key(k) {
        m[k]
    } else {
        Seq::empty()
    }
}

/// Whether `all` lists what the multimap's content `m` is: each key once,
/// with its values.
pub open spec fn lists_held(
    all: Seq<(&Code, &Vec<Interpretation>)>,
    m: Map<CodeView, Seq<InterpretationView>>,
) -> bool {
    &&& forall|i: int, j: int|
        0 <= i < j < all.len() ==> code_view(*(#[trigger] all[i]).0) != code_view(*(#[trigger] all[j]).0)
    &&& forall|i: int|
        0 <= i < all.len() ==> m.contains_key(code_view(*(#[trigger] all[i]).0)) && m[code_view(
            *all[i].0,
        )] == interpretations(all[i].1@)
    &&& forall|k: CodeView|
        m.contains_key(k) ==> exists|i: int| 0 <= i < all.len() && code_view(*(#[trigger] all[i]).0) == k
}

/// A lexicon as it is gone through: its syntax nodes, each with its
/// interpretations.
pub type Listing = Seq<(SyntaxNodeView, Seq<InterpretationView>)>;

/// The content of a lexicon as it is gone through.
pub open spec fn listing_view(all: Seq<(SyntaxNode, &Vec<Interpretation>)>) -> Listing {
    all.map_values(|e: (SyntaxNode, &Vec<Interpretation>)| (e.0@, interpretations(e.1@)))
}

/// Whether `listing` lists what the map `m` holds: each key once, with its
/// values.
pub open spec fn lists(listing: Listing, m: Map<SyntaxNodeView, Seq<InterpretationView>>) -> bool {
    &&& forall|i: int, j: int|
        0 <= i < j < listing.len() ==> (#[trigger] listing[i]).0 != (#[trigger] listing[j]).0
    &&& forall|i: int|
        0 <= i < listing.len() ==> m.contains_key((#[trigger] listing[i]).0) && m[listing[i].0]
            == listing[i].1
    &&& forall|k: SyntaxNodeView|
        m.contains_key(k) ==> exists|i: int| 0 <= i < listing.len() && (#[trigger] listing[i]).0 == k
}

/// The lines of the syntax node `node`: for each of `interps` the node,
/// ` = `, and the interpretation. Nothing if a key has no name.
pub open spec fn node_lines<I: Interner>(
    names: &I,
    node: SyntaxNodeView,
    interps: Seq<InterpretationView>,
) -> Option<Seq<Text>>
    decreases interps.len(),
{
    if interps.len() == 0 {
        Some(Seq::empty())
    } else {
        match (
            node_lines(names, node, interps.drop_last()),
            node.text(names),
            interps.last().text(names),
        ) {
            (Some(lines), Some(from), Some(to)) => Some(lines.push(from + " = "@ + to)),
            _ => None,
        }
    }
}

/// The lines of those syntax nodes of `listing` that are lexical items,
/// if `lexical`, and of the others, if not. Nothing if a key of the
/// listing has no name.
pub open spec fn section_lines<I: Interner>(names: &I, listing: Listing, lexical: bool) -> Option<
    Seq<Text>,
>
    decreases listing.len(),
{
    if listing.len() == 0 {
        Some(Seq::empty())
    } else {
        match (
            section_lines(names, listing.drop_last(), lexical),
            node_lines(names, listing.last().0, listing.last().1),
        ) {
            (Some(lines), Some(more)) => Some(
                if (listing.last().0 is Lexi) == lexical {
                    lines + more
                } else {
                    lines
                },
            ),
            _ => None,
        }
    }
}

/// How a lexicon that is gone through as `listing` is written: the lines
/// of its feature sets in ascending order under `[Functional]`, then
/// those of its lexical items under `[Lexical]`. Nothing if a key has no
/// name.
pub open spec fn listing_text<I: Interner>(names: &I, listing: Listing) -> Option<Text> {
    match (section_lines(names, listing, false), section_lines(names, listing, true)) {
        (Some(functional), Some(lexical)) => Some(
            "[Functional]\n"@ + joined(sorted(functional), "\n"@) + "\n\n[Lexical]\n"@ + joined(
                sorted(lexical),
                "\n"@,
            ) + "\n"@,
        ),
        _ => None,
    }
}

/// A listing with a syntax node whose lines cannot be written has no
/// lines.
pub proof fn lemma_section_lines_fail<I: Interner>(names: &I, listing: Listing, n: int, lexical: bool)
    requires
        0 <= n < listing.len(),
        node_lines(names, listing[n].0, listing[n].1) is None,
    ensures
        section_lines(names, listing, lexical) is None,
    decreases listing.len(),
{
    if n < listing.len() - 1 {
        assert(listing.drop_last()[n] == listing[n]);
        lemma_section_lines_fail(names, listing.drop_last(), n, lexical);
    }
}

/// `MultiMap::new` of the crate multimap: a multimap that holds nothing.
#[verifier::external_body]
fn multimap_new() -> (r: MultiMap<Code, Interpretation>)
    ensures
        held(r) == (Map::<CodeView, Seq<InterpretationView>>::empty()),
{
    MultiMap::new()
}

/// `MultiMap::insert` of the crate multimap: the value is appended to the
/// values of the key; a key that is not there gets the value as its only
/// one.
#[verifier::external_body]
fn multimap_insert(m: &mut MultiMap<Code, Interpretation>, k: Code, v: Interpretation)
    ensures
        held(*final(m)) == held(*old(m)).insert(
            code_view(k),
            held_under(held(*old(m)), code_view(k)).push(v@),
        ),
{
    m.insert(k, v)
}

/// `MultiMap::get_vec` of the crate multimap: the values of the key, if
/// the key is there.
#[verifier::external_body]
fn multimap_get_vec<'a>(m: &'a MultiMap<Code, Interpretation>, k: &Code) -> (r: Option<
    &'a Vec<Interpretation>,
>)
    ensures
        match r {
            Some(v) => held(*m).contains_key(code_view(*k)) && interpretations(v@) == held(*m)[code_view(
                *k,
            )],
            None => !held(*m).contains_key(code_view(*k)),
        },
{
    m.get_vec(k)
}

/// `MultiMap::iter_all` of the crate multimap: every key with its values,
/// each key once, in an order that is left open.
#[verifier::external_body]
fn multimap_iter_all<'a>(m: &'a MultiMap<Code, Interpretation>) -> (r: Vec<
    (&'a Code, &'a Vec<Interpretation>),
>)
    ensures
        lists_held(r@, held(*m)),
{
    m.iter_all().collect()
}

/// The code of the syntax node `node`.
fn encode(node: &SyntaxNode) -> (r: Code)
    ensures
        listable(node@),
        code_view(r) == code_of(node@),
{
    match node {
        SyntaxNode::Lexi(k) => (Some(*k), Vec::new()),
        SyntaxNode::Feat(fs) => (None, fs.pairs()),
    }
}

/// The syntax node with the code `code`.
fn decode(code: &Code) -> (r: SyntaxNode)
    requires
        is_code(code_view(*code)),
    ensures
        r@ == node_of(code_view(*code)),
{
    match code.0 {
        Some(k) => SyntaxNode::Lexi(k),
        None => {
            let fs = FeatureSet::from_pairs(&code.1);
            proof {
                lemma_gathered_lists(code.1@);
                lemma_ascending_lists(code.1@);
                lemma_listing_determines_features(code.1@, fs@, features_of(code.1@));
            }
            SyntaxNode::Feat(fs)
        },
    }
}

/// A lexicon that holds, for syntax nodes, their interpretations.
pub struct Lexicon(MultiMap<Code, Interpretation>);

impl View for Lexicon {
    type V = Map<SyntaxNodeView, Seq<InterpretationView>>;

    closed spec fn view(&self) -> Map<SyntaxNodeView, Seq<InterpretationView>> {
        Map::new(
            |n: SyntaxNodeView| listable(n) && held(self.0).contains_key(code_of(n)),
            |n: SyntaxNodeView| held(self.0)[code_of(n)],
        )
    }
}

impl Lexicon {
    /// Every key of the multimap is the code of a syntax node.
    #[verifier::type_invariant]
    spec fn well_keyed(&self) -> bool {
        forall|c: CodeView| #[trigger] held(self.0).contains_key(c) ==> is_code(c)
    }

    /// The empty lexicon.
    pub fn new() -> (r: Lexicon)
        ensures
            r@ == Map::<SyntaxNodeView, Seq<InterpretationView>>::empty(),
    {
        let r = Lexicon(multimap_new());
        assert(r@ =~= Map::<SyntaxNodeView, Seq<InterpretationView>>::empty());
        r
    }

    /// Adds `interp` to the interpretations of `node`.
    pub fn insert(&mut self, node: SyntaxNode, interp: Interpretation)
        ensures
            final(self)@ == old(self)@.insert(node@, held_under(old(self)@, node@).push(interp@)),
    {
        proof {
            use_type_invariant(&*self);
        }
        let ghost before = self@;
        let code = encode(&node);
        let mut map = multimap_new();
        core::mem::swap(&mut map, &mut self.0);
        multimap_insert(&mut map, code, interp);
        self.0 = map;
        proof {
            lemma_node_has_code(node@);
            let after = before.insert(node@, held_under(before, node@).push(interp@));
            assert forall|n: SyntaxNodeView| listable(n) && n != node@ implies code_of(n) != code_of(
                node@,
            ) by {
                lemma_node_has_code(n);
            }
            assert(self@ =~= after);
        }
    }

    /// Adds the feature set `features` to the interpretations of the
    /// lexical item `lexi`.
    pub fn insert_lexical(&mut self, lexi: crate::syntax::Key, features: FeatureSet)
        ensures
            final(self)@ == old(self)@.insert(
                SyntaxNodeView::Lexi(lexi),
                held_under(old(self)@, SyntaxNodeView::Lexi(lexi)).push(
                    InterpretationView::Val(features@),
                ),
            ),
    {
        self.insert(SyntaxNode::Lexi(lexi), Interpretation::Val(features));
    }

    /// Adds `interp` to the interpretations of the feature set `fset`.
    pub fn insert_functional(&mut self, fset: FeatureSet, interp: Interpretation)
        ensures
            final(self)@ == old(self)@.insert(
                SyntaxNodeView::Feat(fset@),
                held_under(old(self)@, SyntaxNodeView::Feat(fset@)).push(interp@),
            ),
    {
        self.insert(SyntaxNode::Feat(fset), interp);
    }

    /// The interpretations of `node`, if it has any.
    pub fn get_vec(&self, node: &SyntaxNode) -> (r: Option<&Vec<Interpretation>>)
        ensures
            match r {
                Some(v) => self@.contains_key(node@) && interpretations(v@) == self@[node@],
                None => !self@.contains_key(node@),
            },
    {
        let code = encode(node);
        multimap_get_vec(&self.0, &code)
    }

    /// Every syntax node of the lexicon with its interpretations, each
    /// node once, in an order that is left open.
    pub fn iter_all(&self) -> (r: Vec<(SyntaxNode, &Vec<Interpretation>)>)
        ensures
            lists(listing_view(r@), self@),
    {
        proof {
            use_type_invariant(self);
        }
        let all = multimap_iter_all(&self.0);
        let mut r: Vec<(SyntaxNode, &Vec<Interpretation>)> = Vec::new();
        let mut i: usize = 0;
        while i < all.len()
            invariant
                i <= all.len(),
                r.len() == i,
                lists_held(all@, held(self.0)),
                forall|c: CodeView| #[trigger] held(self.0).contains_key(c) ==> is_code(c),
                forall|j: int|
                    0 <= j < i ==> (#[trigger] r@[j]).0@ == node_of(code_view(*all@[j].0)) && r@[j].1
                        == all@[j].1,
            decreases all.len() - i,
        {
            let (code, interps) = all[i];
            assert(held(self.0).contains_key(code_view(*all@[i as int].0)));
            r.push((decode(code), interps));
            i += 1;
        }
        proof {
            let listing = listing_view(r@);
            assert forall|j: int| 0 <= j < r@.len() implies listable((#[trigger] r@[j]).0@) && code_of(
                r@[j].0@,
            ) == code_view(*all@[j].0) by {
                assert(held(self.0).contains_key(code_view(*all@[j].0)));
                lemma_code_has_node(code_view(*all@[j].0));
            }
            assert forall|i: int, j: int| 0 <= i < j < listing.len() implies (#[trigger] listing[i]).0
                != (#[trigger] listing[j]).0 by {
                assert(code_of(r@[i].0@) != code_of(r@[j].0@));
            }
            assert forall|j: int| 0 <= j < listing.len() implies self@.contains_key(
                (#[trigger] listing[j]).0,
            ) && self@[listing[j].0] == listing[j].1 by {
                assert(listable(r@[j].0@));
            }
            assert forall|k: SyntaxNodeView| self@.contains_key(k) implies exists|j: int|
                0 <= j < listing.len() && (#[trigger] listing[j]).0 == k by {
                let j = choose|j: int|
                    0 <= j < all@.len() && code_view(*(#[trigger] all@[j]).0) == code_of(k);
                lemma_node_has_code(k);
                assert(listing[j].0 == k);
            }
        }
        r
    }

    /// The lexicon as it is written, gone through in some order; nothing
    /// if a key has no name.
    pub fn to_string<I: Interner>(&self, names: &I) -> (r: Option<String>)
        ensures
            exists|listing: Listing| #[trigger]
                lists(listing, self@) && name_view(r) == listing_text(names, listing),
    {
        let all = self.iter_all();
        let ghost listing = listing_view(all@);
        let mut lexical: Vec<String> = Vec::new();
        let mut functional: Vec<String> = Vec::new();
        let mut i: usize = 0;
        assert(listing.take(0) =~= Seq::empty());
        while i < all.len()
            invariant
                i <= all.len(),
                listing == listing_view(all@),
                lists(listing, self@),
                section_lines(names, listing.take(i as int), true) == Some(texts(lexical@)),
                section_lines(names, listing.take(i as int), false) == Some(texts(functional@)),
            decreases all.len() - i,
        {
            proof {
                assert(listing.take(i + 1).drop_last() =~= listing.take(i as int));
                assert(listing.take(i + 1).last() == listing[i as int]);
                assert(listing[i as int] == (all@[i as int].0@, interpretations(all@[i as int].1@)));
            }
            let written = match &all[i].0 {
                SyntaxNode::Lexi(_) => write_node_lines(names, &mut lexical, &all[i].0, all[i].1),
                SyntaxNode::Feat(_) => write_node_lines(names, &mut functional, &all[i].0, all[i].1),
            };
            if !written {
                proof {
                    lemma_section_lines_fail(names, listing, i as int, true);
                }
                return None;
            }
            i = i + 1;
        }
        assert(listing.take(i as int) =~= listing);
        let mut r = String::from_str("[Functional]\n");
        r.append(join(&sort(functional), "\n").as_str());
        r.append("\n\n[Lexical]\n");
        r.append(join(&sort(lexical), "\n").as_str());
        r.append("\n");
        Some(r)
    }
}

/// Writes the lines of `node` with `interps` after `out`; tells whether
/// every key had a name.
fn write_node_lines<I: Interner>(
    names: &I,
    out: &mut Vec<String>,
    node: &SyntaxNode,
    interps: &Vec<Interpretation>,
) -> (r: bool)
    ensures
        match node_lines(names, node@, interpretations(interps@)) {
            Some(lines) => r && texts(final(out)@) == texts(old(out)@) + lines,
            None => !r,
        },
{
    let ghost all = interpretations(interps@);
    let ghost start = texts(out@);
    let mut i: usize = 0;
    assert(all.take(0) =~= Seq::empty());
    assert(start + Seq::<Text>::empty() =~= start);
    while i < interps.len()
        invariant
            i <= interps.len(),
            all == interpretations(interps@),
            match node_lines(names, node@, all.take(i as int)) {
                Some(lines) => texts(out@) == start + lines,
                None => false,
            },
        decreases interps.len() - i,
    {
        proof {
            assert(all.take(i + 1).drop_last() =~= all.take(i as int));
            assert(all.take(i + 1).last() == interps@[i as int]@);
        }
        let ghost lines = node_lines(names, node@, all.take(i as int))->0;
        let from = node.to_string(names);
        let to = interps[i].to_string(names);
        match (from, to) {
            (Some(mut line), Some(to)) => {
                line.append(" = ");
                line.append(to.as_str());
                let ghost before = out@;
                out.push(line);
                assert(texts(out@) =~= texts(before).push(line@));
                assert(texts(out@) =~= start + lines.push(line@));
            },
            _ => {
                proof {
                    lemma_node_lines_fail(names, node@, all, i as int);
                }
                return false;
            },
        }
        i = i + 1;
    }
    assert(all.take(i as int) =~= all);
    true
}

/// A syntax node with an interpretation that cannot be written, or that
/// cannot be written itself, has no lines.
pub proof fn lemma_node_lines_fail<I: Interner>(
    names: &I,
    node: SyntaxNodeView,
    interps: Seq<InterpretationView>,
    n: int,
)
    requires
        0 <= n < interps.len(),
        node.text(names) is None || interps[n].text(names) is None,
    ensures
        node_lines(names, node, interps) is None,
    decreases interps.len(),
{
    if n < interps.len() - 1 {
        assert(interps.drop_last()[n] == interps[n]);
        lemma_node_lines_fail(names, node, interps.drop_last(), n);
    }
}

} // verus!
