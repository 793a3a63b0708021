//! The value model: the closed set of runtime values that flow along the
//! edges of the graph.

use vstd::prelude::*;

verus! {

/// The mathematical shape of a [`LazValue`]: the same variants, with
/// sequences in place of vectors and strings. Contracts speak of this type.
pub enum ValueModel {
    Byte(u8),
    Char(char),
    Unsigned(u64),
    Signed(i64),
    Array(Seq<ValueModel>),
    String(Seq<char>),
}

/// A runtime value produced by one node and consumed by another.
///
/// There is no implicit numeric coercion between variants: a node that
/// expects one variant must reject every other explicitly. An `Array` may be
/// heterogeneous at the type level; homogeneity, where a node requires it, is
/// enforced by that node, not by the value type.
#[derive(Debug)]
pub enum LazValue {
    Byte(u8),
    Char(char),
    Unsigned(u64),
    Signed(i64),
    Array(Vec<LazValue>),
    String(String),
}

impl DeepView for LazValue {
    type V = ValueModel;

    open spec fn deep_view(&self) -> ValueModel
        decreases *self,
    {
        match self {
            LazValue::Byte(b) => ValueModel::Byte(*b),
            LazValue::Char(c) => ValueModel::Char(*c),
            LazValue::Unsigned(u) => ValueModel::Unsigned(*u),
            LazValue::Signed(s) => ValueModel::Signed(*s),
            LazValue::Array(items) => {
                proof {
                    assert(decreases_to!(*self => *items));
                    assert(decreases_to!(*items => items@));
                }
                ValueModel::Array(seq_deep_view(items@))
            },
            LazValue::String(s) => ValueModel::String(s@),
        }
    }
}

/// The models of a sequence of values, element by element.
pub open spec fn seq_deep_view(s: Seq<LazValue>) -> Seq<ValueModel>
    decreases s,
{
    if s.len() == 0 {
        Seq::empty()
    } else {
        proof {
            assert(decreases_to!(s => s.drop_last()));
            assert(decreases_to!(s => s.last()));
        }
        seq_deep_view(s.drop_last()).push(s.last().deep_view())
    }
}

/// `seq_deep_view` is the pointwise model of its argument.
pub broadcast proof fn lemma_seq_deep_view(s: Seq<LazValue>)
    ensures
        (#[trigger] seq_deep_view(s)).len() == s.len(),
        forall|i: int| 0 <= i < s.len() ==> seq_deep_view(s)[i] == s[i].deep_view(),
    decreases s.len(),
{
    if s.len() == 0 {
        assert(seq_deep_view(s) == Seq::<ValueModel>::empty());
    } else {
        lemma_seq_deep_view(s.drop_last());
        assert(seq_deep_view(s) == seq_deep_view(s.drop_last()).push(s.last().deep_view()));
    }
}

impl PartialEq for LazValue {
    /// Equality is structural and total: two values are equal exactly when
    /// their models are.
    fn eq(&self, other: &Self) -> (r: bool)
        ensures
            r == (self.deep_view() == other.deep_view()),
        decreases *self,
    {
        broadcast use lemma_seq_deep_view;

        match self {
            LazValue::Byte(a) => match other {
                LazValue::Byte(b) => *a == *b,
                _ => false,
            },
            LazValue::Char(a) => match other {
                LazValue::Char(b) => *a == *b,
                _ => false,
            },
            LazValue::Unsigned(a) => match other {
                LazValue::Unsigned(b) => *a == *b,
                _ => false,
            },
            LazValue::Signed(a) => match other {
                LazValue::Signed(b) => *a == *b,
                _ => false,
            },
            LazValue::Array(xs) => match other {
                LazValue::Array(ys) => {
                    if xs.len() != ys.len() {
                        proof {
                            assert(seq_deep_view(xs@).len() == xs@.len());
                            assert(seq_deep_view(ys@).len() == ys@.len());
                        }
                        return false;
                    }
                    let mut k: usize = 0;
                    while k < xs.len()
                        invariant
                            *self == LazValue::Array(*xs),
                            *other == LazValue::Array(*ys),
                            self.deep_view() == ValueModel::Array(seq_deep_view(xs@)),
                            other.deep_view() == ValueModel::Array(seq_deep_view(ys@)),
                            xs@.len() == ys@.len(),
                            k <= xs@.len(),
                            forall|j: int| 0 <= j < k ==> xs@[j].deep_view() == ys@[j].deep_view(),
                        decreases xs@.len() - k,
                    {
                        proof {
                            broadcast use lemma_seq_deep_view;

                            assert(decreases_to!(*self => (*self)->Array_0));
                            assert((*self)->Array_0 == *xs);
                            assert(decreases_to!(*xs => xs[k as int]));
                        }
                        if !(xs[k] == ys[k]) {
                            proof {
                                broadcast use lemma_seq_deep_view;

                                assert(seq_deep_view(xs@)[k as int] != seq_deep_view(ys@)[k as int]);
                            }
                            return false;
                        }
                        k = k + 1;
                    }
                    proof {
                        assert(seq_deep_view(xs@) =~= seq_deep_view(ys@));
                    }
                    true
                },
                _ => false,
            },
            LazValue::String(a) => match other {
                LazValue::String(b) => *a == *b,
                _ => false,
            },
        }
    }
}

impl vstd::std_specs::cmp::PartialEqSpecImpl for LazValue {
    open spec fn obeys_eq_spec() -> bool {
        true
    }

    open spec fn eq_spec(&self, other: &LazValue) -> bool {
        self.deep_view() == other.deep_view()
    }
}

impl Clone for LazValue {
    /// Cloning is structural and total: the copy has the same model.
    fn clone(&self) -> (r: Self)
        ensures
            r.deep_view() == self.deep_view(),
        decreases *self,
    {
        broadcast use lemma_seq_deep_view;

        match self {
            LazValue::Byte(b) => LazValue::Byte(*b),
            LazValue::Char(c) => LazValue::Char(*c),
            LazValue::Unsigned(u) => LazValue::Unsigned(*u),
            LazValue::Signed(s) => LazValue::Signed(*s),
            LazValue::Array(items) => {
                let mut out: Vec<LazValue> = Vec::new();
                let mut k: usize = 0;
                while k < items.len()
                    invariant
                        *self == LazValue::Array(*items),
                        k <= items@.len(),
                        out@.len() == k,
                        forall|j: int| 0 <= j < k ==> out@[j].deep_view() == items@[j].deep_view(),
                    decreases items@.len() - k,
                {
                    proof {
                        assert(decreases_to!(*self => (*self)->Array_0));
                        assert((*self)->Array_0 == *items);
                        assert(decreases_to!(*items => items[k as int]));
                    }
                    out.push(items[k].clone());
                    k = k + 1;
                }
                proof {
                    assert(seq_deep_view(out@) =~= seq_deep_view(items@));
                }
                LazValue::Array(out)
            },
            LazValue::String(s) => LazValue::String(s.clone()),
        }
    }
}

} // verus!
