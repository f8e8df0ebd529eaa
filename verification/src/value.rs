use vstd::prelude::*;

verus! {

/// The mathematical shape of a preference value: what contracts and proofs
/// speak of, with sequences in place of vectors and strings.
pub enum ValModel {
    Null,
    Bool(bool),
    Num(int),
    Str(Seq<char>),
    Arr(Seq<ValModel>),
    Obj(Seq<(Seq<char>, ValModel)>),
}

/// A stored preference value: the JSON-like data this library keeps under
/// each preference key. Numbers are 64-bit integers; a document with a
/// fractional or out-of-range number is rejected when it is read.
#[derive(Debug, PartialEq, Eq)]
pub enum PrefValue {
    Null,
    Bool(bool),
    Num(i64),
    Str(String),
    Arr(Vec<PrefValue>),
    Obj(Vec<(String, PrefValue)>),
}

impl PrefValue {
    /// The value's mathematical shape.
    pub open spec fn model(self) -> ValModel
        decreases self,
    {
        match self {
            PrefValue::Null => ValModel::Null,
            PrefValue::Bool(b) => ValModel::Bool(b),
            PrefValue::Num(n) => ValModel::Num(n as int),
            PrefValue::Str(s) => ValModel::Str(s@),
            PrefValue::Arr(items) => ValModel::Arr(
                Seq::new(
                    items@.len(),
                    |i: int|
                        if 0 <= i < items@.len() {
                            items@[i].model()
                        } else {
                            ValModel::Null
                        },
                ),
            ),
            PrefValue::Obj(entries) => ValModel::Obj(
                Seq::new(
                    entries@.len(),
                    |i: int|
                        if 0 <= i < entries@.len() {
                            (entries@[i].0@, entries@[i].1.model())
                        } else {
                            (Seq::empty(), ValModel::Null)
                        },
                ),
            ),
        }
    }

    /// A copy of the value, equal in shape to the original.
    #[verifier::loop_isolation(false)]
    pub fn deep_clone(&self) -> (r: Self)
        ensures
            r.model() == self.model(),
        decreases *self,
    {
        match self {
            PrefValue::Null => PrefValue::Null,
            PrefValue::Bool(b) => PrefValue::Bool(*b),
            PrefValue::Num(n) => PrefValue::Num(*n),
            PrefValue::Str(s) => PrefValue::Str(s.clone()),
            PrefValue::Arr(items) => {
                let mut out: Vec<PrefValue> = Vec::new();
                let n = items.len();
                let mut i: usize = 0;
                while i < n
                    invariant
                        i <= n == items@.len(),
                        out@.len() == i,
                        forall|j: int| 0 <= j < i ==> out@[j].model() == items@[j].model(),
                    decreases n - i,
                {
                    let c = items[i].deep_clone();
                    out.push(c);
                    i = i + 1;
                }
                let r = PrefValue::Arr(out);
                proof {
                    assert(r.model()->Arr_0 =~~= self.model()->Arr_0);
                }
                r
            },
            PrefValue::Obj(entries) => {
                let mut out: Vec<(String, PrefValue)> = Vec::new();
                let n = entries.len();
                let mut i: usize = 0;
                while i < n
                    invariant
                        i <= n == entries@.len(),
                        out@.len() == i,
                        forall|j: int| 0 <= j < i ==> out@[j].0@ == entries@[j].0@ && out@[j].1.model()
                            == entries@[j].1.model(),
                    decreases n - i,
                {
                    let pair = &entries[i];
                    let k = pair.0.clone();
                    let v = pair.1.deep_clone();
                    out.push((k, v));
                    i = i + 1;
                }
                let r = PrefValue::Obj(out);
                proof {
                    assert(r.model()->Obj_0 =~~= self.model()->Obj_0);
                }
                r
            },
        }
    }
}


/// Whether a shape can be held by stored values: every number fits a signed
/// 64-bit integer.
pub open spec fn model_wf(v: ValModel) -> bool
    decreases v,
{
    match v {
        ValModel::Null => true,
        ValModel::Bool(_) => true,
        ValModel::Num(n) => i64::MIN <= n <= i64::MAX,
        ValModel::Str(_) => true,
        ValModel::Arr(items) => forall|i: int|
            0 <= i < items.len() ==> model_wf(#[trigger] items[i]),
        ValModel::Obj(es) => forall|i: int| 0 <= i < es.len() ==> model_wf((#[trigger] es[i]).1),
    }
}

/// Every value this library holds has a well-formed shape.
pub proof fn lemma_model_wf(p: PrefValue)
    ensures
        model_wf(p.model()),
    decreases p,
{
    match p {
        PrefValue::Arr(items) => {
            assert forall|i: int| 0 <= i < p.model()->Arr_0.len() implies model_wf(
                #[trigger] p.model()->Arr_0[i],
            ) by {
                lemma_model_wf(items@[i]);
            }
        },
        PrefValue::Obj(es) => {
            assert forall|i: int| 0 <= i < p.model()->Obj_0.len() implies model_wf(
                (#[trigger] p.model()->Obj_0[i]).1,
            ) by {
                lemma_model_wf(es@[i].1);
            }
        },
        _ => {},
    }
}

} // verus!
