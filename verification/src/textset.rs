//! A set of texts, kept in order: what a report lists once each.

use vstd::prelude::*;
use crate::text::{
    lemma_text_le_total, lemma_text_le_transitive, same_text, text_before, text_le, texts,
};

verus! {

/// Each text ranks strictly before each that follows it.
pub open spec fn increasing(s: Seq<Seq<char>>) -> bool {
    forall|i: int, j: int|
        0 <= i < j < s.len() ==> text_le(#[trigger] s[i], #[trigger] s[j]) && s[i] != s[j]
}

/// A set of texts, in order.
#[derive(Debug, Clone, PartialEq, Eq)]
pub struct TextSet {
    items: Vec<String>,
}

impl View for TextSet {
    type V = Seq<Seq<char>>;

    closed spec fn view(&self) -> Seq<Seq<char>> {
        texts(self.items@)
    }
}

impl Default for TextSet {
    fn default() -> (r: Self)
        ensures
            r@ == Seq::<Seq<char>>::empty(),
            r.wf(),
    {
        let r = TextSet { items: Vec::new() };
        assert(r@ =~= Seq::<Seq<char>>::empty());
        r
    }
}

impl TextSet {
    /// The texts stand in order, each once.
    pub open spec fn wf(&self) -> bool {
        increasing(self@)
    }

    /// The texts, in order.
    pub fn items(&self) -> (r: &Vec<String>)
        ensures
            texts(r@) == self@,
    {
        &self.items
    }

    /// Adds a text; one that is there already makes no difference.
    pub fn insert(&mut self, text: String)
        requires
            old(self).wf(),
        ensures
            final(self).wf(),
            forall|t: Seq<char>| #[trigger]
                final(self)@.contains(t) <==> old(self)@.contains(t) || t == text@,
    {
        let ghost before = self@;
        let mut k: usize = 0;
        while k < self.items.len() && text_before(self.items[k].as_str(), text.as_str())
            && !same_text(self.items[k].as_str(), text.as_str())
            invariant
                self@ == before,
                before == texts(self.items@),
                k <= self.items@.len(),
                forall|j: int|
                    0 <= j < k ==> text_le(#[trigger] before[j], text@) && before[j] != text@,
            decreases self.items@.len() - k,
        {
            k += 1;
        }
        if k < self.items.len() && same_text(self.items[k].as_str(), text.as_str()) {
            assert(before[k as int] == text@);
            return;
        }
        let ghost told = text@;
        self.items.insert(k, text);
        assert(self@ =~= before.insert(k as int, told));
        proof {
            let after = before.insert(k as int, told);
            if k < before.len() {
                lemma_text_le_total(told, before[k as int]);
            }
            assert forall|i: int, j: int| 0 <= i < j < after.len() implies text_le(
                #[trigger] after[i],
                #[trigger] after[j],
            ) && after[i] != after[j] by {
                if i < k && j > k {
                    assert(after[i] == before[i] && after[j] == before[j - 1]);
                } else if i == k && j > k + 1 {
                    assert(after[j] == before[j - 1]);
                    lemma_text_le_transitive(told, before[k as int], before[j - 1]);
                    lemma_text_le_total(before[k as int], before[j - 1]);
                    lemma_text_le_total(told, before[j - 1]);
                    if told == before[j - 1] {
                        lemma_text_le_total(told, before[k as int]);
                    }
                } else if i > k {
                    assert(after[i] == before[i - 1] && after[j] == before[j - 1]);
                }
            }
            assert forall|t: Seq<char>| #[trigger] after.contains(t) <==> before.contains(t) || t
                == told by {
                if after.contains(t) {
                    let i = choose|i: int| 0 <= i < after.len() && after[i] == t;
                    if i < k {
                        assert(before[i] == t);
                    } else if i > k {
                        assert(before[i - 1] == t);
                    }
                }
                if before.contains(t) {
                    let i = choose|i: int| 0 <= i < before.len() && before[i] == t;
                    if i < k {
                        assert(after[i] == t);
                    } else {
                        assert(after[i + 1] == t);
                    }
                }
                assert(after[k as int] == told);
            }
        }
    }
}

/// Two sets in order with the same members are the same sequence: what was inserted when leaves
/// no trace.
pub proof fn members_decide_the_order(a: Seq<Seq<char>>, b: Seq<Seq<char>>)
    requires
        increasing(a),
        increasing(b),
        forall|t: Seq<char>| #[trigger] a.contains(t) <==> b.contains(t),
    ensures
        a == b,
    decreases a.len(),
{
    if a.len() == 0 {
        if b.len() > 0 {
            assert(b.contains(b[0]));
            assert(a.contains(b[0]));
        }
        assert(a =~= b);
    } else {
        assert(a.contains(a[0]));
        assert(b.contains(a[0]));
        let k = choose|k: int| 0 <= k < b.len() && b[k] == a[0];
        assert(b.contains(b[0]));
        assert(a.contains(b[0]));
        let m = choose|m: int| 0 <= m < a.len() && a[m] == b[0];
        lemma_text_le_total(a[0], b[0]);
        assert(a[0] == b[0]);
        let (ra, rb) = (a.drop_first(), b.drop_first());
        assert forall|t: Seq<char>| #[trigger] ra.contains(t) <==> rb.contains(t) by {
            if ra.contains(t) {
                let i = choose|i: int| 0 <= i < ra.len() && ra[i] == t;
                assert(a[i + 1] == t);
                assert(a.contains(t));
                assert(b.contains(t));
                let j = choose|j: int| 0 <= j < b.len() && b[j] == t;
                assert(rb[j - 1] == t);
            }
            if rb.contains(t) {
                let i = choose|i: int| 0 <= i < rb.len() && rb[i] == t;
                assert(b[i + 1] == t);
                assert(b.contains(t));
                assert(a.contains(t));
                let j = choose|j: int| 0 <= j < a.len() && a[j] == t;
                assert(ra[j - 1] == t);
            }
        }
        assert forall|i: int, j: int| 0 <= i < j < ra.len() implies text_le(
            #[trigger] ra[i],
            #[trigger] ra[j],
        ) && ra[i] != ra[j] by {
            assert(ra[i] == a[i + 1] && ra[j] == a[j + 1]);
        }
        assert forall|i: int, j: int| 0 <= i < j < rb.len() implies text_le(
            #[trigger] rb[i],
            #[trigger] rb[j],
        ) && rb[i] != rb[j] by {
            assert(rb[i] == b[i + 1] && rb[j] == b[j + 1]);
        }
        members_decide_the_order(ra, rb);
        assert(a =~= seq![a[0]] + ra);
        assert(b =~= seq![b[0]] + rb);
    }
}

} // verus!
