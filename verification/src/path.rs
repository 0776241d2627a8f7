//! Path expressions — dot-separated sequences of member names and array
//! indices — and their evaluation against a parsed value. A mismatch at any
//! segment (wrong kind, missing member, index out of range) yields `None`,
//! never a fault.

use vstd::prelude::*;

use crate::json::{Value, ValueModel};

verus! {

/// One step of a path: a member name or an array index.
pub enum Segment {
    Key(Vec<char>),
    Index(usize),
}

/// Model of one step: a member name or an array index.
pub enum SegModel {
    Key(Seq<char>),
    Index(int),
}

impl Segment {
    /// The model of this segment.
    pub open spec fn deep(self) -> SegModel {
        match self {
            Segment::Key(s) => SegModel::Key(s@),
            Segment::Index(n) => SegModel::Index(n as int),
        }
    }
}

/// The models of a sequence of segments, element by element.
pub open spec fn deep_segs(s: Seq<Segment>) -> Seq<SegModel>
    decreases s,
{
    if s.len() == 0 {
        Seq::empty()
    } else {
        seq![s[0].deep()] + deep_segs(s.drop_first())
    }
}

pub proof fn lemma_deep_segs(s: Seq<Segment>)
    ensures
        deep_segs(s).len() == s.len(),
        forall|i: int| 0 <= i < s.len() ==> deep_segs(s)[i] == s[i].deep(),
    decreases s.len(),
{
    if s.len() > 0 {
        lemma_deep_segs(s.drop_first());
    }
}

/// An ordered sequence of segments, evaluated front to back.
pub struct PathExpression {
    pub segments: Vec<Segment>,
}

impl PathExpression {
    /// The model of this path.
    pub open spec fn deep(self) -> Seq<SegModel> {
        deep_segs(self.segments@)
    }

    /// A path with no segments.
    pub fn empty() -> (r: Self)
        ensures
            r.deep() == Seq::<SegModel>::empty(),
    {
        PathExpression { segments: Vec::new() }
    }

    /// Appends a member-name segment.
    pub fn push_key(&mut self, name: &str)
        ensures
            final(self).deep() == old(self).deep().push(SegModel::Key(name@)),
    {
        let key = crate::text::str_to_chars(name);
        proof {
            lemma_deep_segs_push(self.segments@, Segment::Key(key));
        }
        self.segments.push(Segment::Key(key));
    }

    /// Appends an array-index segment.
    pub fn push_index(&mut self, n: usize)
        ensures
            final(self).deep() == old(self).deep().push(SegModel::Index(n as int)),
    {
        proof {
            lemma_deep_segs_push(self.segments@, Segment::Index(n));
        }
        self.segments.push(Segment::Index(n));
    }
}

proof fn lemma_deep_segs_push(s: Seq<Segment>, x: Segment)
    ensures
        deep_segs(s.push(x)) == deep_segs(s).push(x.deep()),
    decreases s.len(),
{
    let w = s.push(x);
    if s.len() == 0 {
        assert(w.drop_first() =~= Seq::<Segment>::empty());
        assert(w[0] == x);
        assert(deep_segs(w) == seq![x.deep()] + deep_segs(w.drop_first()));
        assert(deep_segs(w.drop_first()) == Seq::<SegModel>::empty());
        assert(seq![x.deep()] + Seq::<SegModel>::empty() =~= deep_segs(s).push(x.deep()));
    } else {
        assert(w.drop_first() =~= s.drop_first().push(x));
        lemma_deep_segs_push(s.drop_first(), x);
        assert(w[0] == s[0]);
        assert(deep_segs(w) == seq![s[0].deep()] + deep_segs(s.drop_first()).push(x.deep()));
        assert(deep_segs(s) == seq![s[0].deep()] + deep_segs(s.drop_first()));
        assert(seq![s[0].deep()] + deep_segs(s.drop_first()).push(x.deep()) =~= (seq![s[0].deep()]
            + deep_segs(s.drop_first())).push(x.deep()));
    }
}

/// The member of `ms` named `key`, first occurrence winning.
pub open spec fn spec_lookup(ms: Seq<(Seq<char>, ValueModel)>, key: Seq<char>) -> Option<
    ValueModel,
>
    decreases ms,
{
    if ms.len() == 0 {
        None
    } else if ms[0].0 == key {
        Some(ms[0].1)
    } else {
        spec_lookup(ms.drop_first(), key)
    }
}

/// The value reached from `v` by the segments of `path` from position `k`
/// on: a `Key` segment requires an object holding that member, an `Index`
/// segment an array long enough. Anything else is `None`.
pub open spec fn spec_eval(v: ValueModel, path: Seq<SegModel>, k: int) -> Option<ValueModel>
    decreases path.len() - k,
{
    if !(0 <= k < path.len()) {
        Some(v)
    } else {
        match path[k] {
            SegModel::Key(key) => match v {
                ValueModel::Obj(ms) => match spec_lookup(ms, key) {
                    Some(w) => spec_eval(w, path, k + 1),
                    None => None,
                },
                _ => None,
            },
            SegModel::Index(n) => match v {
                ValueModel::Arr(es) => if 0 <= n < es.len() {
                    spec_eval(es[n], path, k + 1)
                } else {
                    None
                },
                _ => None,
            },
        }
    }
}

/// A mismatch at a segment is a plain not-found, never a fault: a member
/// name applied to anything but an object holding that member, or an
/// index applied to anything but an array long enough, evaluates to
/// `None`.
pub proof fn lemma_eval_missing(v: ValueModel, path: Seq<SegModel>, k: int)
    requires
        0 <= k < path.len(),
        match path[k] {
            SegModel::Key(key) => match v {
                ValueModel::Obj(ms) => spec_lookup(ms, key) is None,
                _ => true,
            },
            SegModel::Index(n) => match v {
                ValueModel::Arr(es) => !(0 <= n < es.len()),
                _ => true,
            },
        },
    ensures
        spec_eval(v, path, k) is None,
{
}

/// The value reached from `v` by `path`, or `None` when any segment does
/// not match the shape of the value it is applied to.
pub fn evaluate<'a>(v: &'a Value, path: &PathExpression) -> (r: Option<&'a Value>)
    ensures
        match r {
            Some(w) => spec_eval(v.deep(), path.deep(), 0) == Some(w.deep()),
            None => spec_eval(v.deep(), path.deep(), 0) is None,
        },
{
    proof {
        lemma_deep_segs(path.segments@);
    }
    eval_from(v, path, 0)
}

fn eval_from<'a>(v: &'a Value, path: &PathExpression, k: usize) -> (r: Option<&'a Value>)
    requires
        k <= path.segments@.len(),
    ensures
        match r {
            Some(w) => spec_eval(v.deep(), path.deep(), k as int) == Some(w.deep()),
            None => spec_eval(v.deep(), path.deep(), k as int) is None,
        },
    decreases path.segments@.len() - k,
{
    proof {
        lemma_deep_segs(path.segments@);
    }
    if k == path.segments.len() {
        return Some(v);
    }
    match &path.segments[k] {
        Segment::Key(key) => match v {
            Value::Obj(ms) => {
                match lookup(ms, key) {
                    Some(w) => eval_from(w, path, k + 1),
                    None => None,
                }
            },
            _ => None,
        },
        Segment::Index(n) => match v {
            Value::Arr(es) => {
                proof {
                    crate::json::lemma_deep_seq(es@);
                }
                if *n < es.len() {
                    eval_from(&es[*n], path, k + 1)
                } else {
                    None
                }
            },
            _ => None,
        },
    }
}

/// The value reached by `path` inside the raw text: the text is parsed
/// from the front and the path followed from the root. Malformed text, as
/// much as a missing member or an out-of-range index, is a plain `None`.
pub fn evaluate_text(text: &str, path: &PathExpression) -> (r: Option<Value>)
    requires
        text@.len() < usize::MAX,
    ensures
        match r {
            Some(v) => crate::json::spec_parse_text(text@) matches Some(root) && spec_eval(
                root,
                path.deep(),
                0,
            ) == Some(v.deep()),
            None => match crate::json::spec_parse_text(text@) {
                Some(root) => spec_eval(root, path.deep(), 0) is None,
                None => true,
            },
        },
{
    let chars = crate::text::str_to_chars(text);
    let root = match crate::json::parse_text(&chars) {
        Some(v) => v,
        None => {
            return None;
        },
    };
    match evaluate(&root, path) {
        Some(w) => Some(w.duplicate()),
        None => None,
    }
}

/// The member of `ms` named `key`, first occurrence winning.
fn lookup<'a>(ms: &'a Vec<(Vec<char>, Value)>, key: &Vec<char>) -> (r: Option<&'a Value>)
    ensures
        match r {
            Some(w) => spec_lookup(crate::json::deep_members(ms@), key@) == Some(w.deep()),
            None => spec_lookup(crate::json::deep_members(ms@), key@) is None,
        },
{
    let mut i: usize = 0;
    proof {
        crate::json::lemma_deep_members(ms@);
        assert(crate::json::deep_members(ms@).skip(0) =~= crate::json::deep_members(ms@));
    }
    while i < ms.len()
        invariant
            i <= ms@.len(),
            crate::json::deep_members(ms@).len() == ms@.len(),
            forall|j: int|
                0 <= j < ms@.len() ==> crate::json::deep_members(ms@)[j] == (
                ms@[j].0@,
                ms@[j].1.deep(),
            ),
            spec_lookup(crate::json::deep_members(ms@), key@) == spec_lookup(
                crate::json::deep_members(ms@).skip(i as int),
                key@,
            ),
        decreases ms@.len() - i,
    {
        proof {
            let ghost d = crate::json::deep_members(ms@);
            assert(d.skip(i as int).len() == ms@.len() - i);
            assert(d.skip(i as int)[0] == d[i as int]);
            assert(d.skip(i as int).drop_first() =~= d.skip(i as int + 1));
        }
        if crate::text::chars_eq(&ms[i].0, key) {
            return Some(&ms[i].1);
        }
        i += 1;
    }
    proof {
        assert(crate::json::deep_members(ms@).skip(i as int).len() == 0);
    }
    None
}

} // verus!
