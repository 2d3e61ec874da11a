//! Parse trees.
//!
//! A parse tree is what a tokenizer hands over: for each rule of the
//! grammar that matched, the rule, the text it matched and the trees of
//! the rules that matched inside it.

use vstd::prelude::*;

verus! {

/// The rules of the grammar that the syntax tree is built from. Every
/// other rule is `Other`.
#[derive(Clone, Copy, Debug, PartialEq, Eq, Structural)]
pub enum Rule {
    Spwn,
    Def,
    Event,
    Call,
    Native,
    EOI,
    Id,
    Number,
    Bool,
    CmpStmt,
    ValueLiteral,
    Symbol,
    Other,
}

/// A node of the parse tree.
#[derive(Debug, PartialEq, Eq)]
pub struct Pair {
    pub rule: Rule,
    pub text: String,
    pub inner: Vec<Pair>,
}

/// The mathematical content of a [`Pair`].
pub ghost struct PairView {
    pub rule: Rule,
    pub text: Seq<char>,
    pub inner: Seq<PairView>,
}

/// The views of a sequence of nodes.
pub open spec fn pairs_view(s: Seq<Pair>) -> Seq<PairView>
    decreases s,
{
    Seq::new(
        s.len(),
        |i: int|
            if 0 <= i < s.len() {
                s[i]@
            } else {
                arbitrary()
            },
    )
}

impl View for Pair {
    type V = PairView;

    open spec fn view(&self) -> PairView
        decreases self,
    {
        PairView { rule: self.rule, text: self.text@, inner: pairs_view(self.inner@) }
    }
}

/// A view of a list of nodes has the length of the list and holds the
/// view of each node at the node's place.
pub broadcast proof fn lemma_pairs_view(s: Seq<Pair>)
    ensures
        (#[trigger] pairs_view(s)).len() == s.len(),
        forall|i: int| 0 <= i < s.len() ==> (#[trigger] pairs_view(s)[i]) == s[i]@,
{
    reveal_with_fuel(pairs_view, 2);
}

/// The view of a node holds the views of the nodes inside it.
pub broadcast proof fn lemma_pair_view(p: Pair)
    ensures
        #[trigger] p@ == (PairView { rule: p.rule, text: p.text@, inner: pairs_view(p.inner@) }),
{
}

} // verus!
