//! Locating and bounding the embedded data blob, and pulling the list of
//! (id, title) video records out of it. Three marker strategies are tried
//! in fixed order for the blob start; the blob ends at the first `};`
//! after it. The results list is reached by one fixed path; malformed
//! elements are skipped, and only the three structural failures are errors.

use vstd::prelude::*;

use crate::json;
use crate::json::{Value, ValueModel};
use crate::path;
use crate::path::{PathExpression, SegModel};
use crate::text;

verus! {

/// One extracted record: the video's site-assigned identifier and its
/// display title.
#[derive(Debug, Clone)]
pub struct Video {
    pub id: String,
    pub title: String,
}

/// The three structural failures; anything else is skipped silently.
#[derive(Clone, Copy, Debug, PartialEq, Eq, Structural)]
pub enum ExtractError {
    BlobStartNotFound,
    BlobEndNotFound,
    ResultsPathNotFound,
}

/// A half-open character range of the source text presumed to hold one
/// object literal.
#[derive(Clone, Copy, Debug, PartialEq, Eq, Structural)]
pub struct RawSpan {
    pub start: usize,
    pub end: usize,
}

// ---------------------------------------------------------------------------
// Blob location
// ---------------------------------------------------------------------------

pub open spec fn marker1() -> Seq<char> {
    "var ytInitialData ="@
}

pub open spec fn marker2() -> Seq<char> {
    "// scraper_data_begin"@
}

pub open spec fn marker3() -> Seq<char> {
    r#"window["ytInitialData"]"#@
}

pub open spec fn terminator() -> Seq<char> {
    "};"@
}

/// Where the blob starts: the first of the three markers that occurs
/// anywhere in `t`, in priority order, its position plus its length plus
/// its fixed offset past the separator.
pub open spec fn spec_blob_start(t: Seq<char>) -> Option<int> {
    match text::spec_find(t, marker1(), 0) {
        Some(i) => Some(i + marker1().len() + 1),
        None => match text::spec_find(t, marker2(), 0) {
            Some(i) => Some(i + marker2().len() + 21),
            None => match text::spec_find(t, marker3(), 0) {
                Some(i) => Some(i + marker3().len() + 3),
                None => None,
            },
        },
    }
}

/// Where the blob ends: one past the closing brace of the first `};` at
/// or after `start`, keeping the brace and dropping the semicolon.
pub open spec fn spec_blob_end(t: Seq<char>, start: int) -> Option<int> {
    if start < 0 {
        None
    } else {
        match text::spec_find(t, terminator(), start as nat) {
            Some(i) => Some(i + 1),
            None => None,
        }
    }
}

fn locate_chars(chars: &Vec<char>) -> (r: Result<RawSpan, ExtractError>)
    requires
        chars@.len() < usize::MAX - 21,
    ensures
        match r {
            Ok(span) => spec_blob_start(chars@) == Some(span.start as int) && spec_blob_end(
                chars@,
                span.start as int,
            ) == Some(span.end as int) && span.start <= span.end <= chars@.len(),
            Err(e) => match spec_blob_start(chars@) {
                None => e == ExtractError::BlobStartNotFound,
                Some(s) => spec_blob_end(chars@, s) is None && e
                    == ExtractError::BlobEndNotFound,
            },
        },
{
    let m1 = text::str_to_chars("var ytInitialData =");
    let m2 = text::str_to_chars("// scraper_data_begin");
    let m3 = text::str_to_chars(r#"window["ytInitialData"]"#);
    proof {
        reveal_strlit("var ytInitialData =");
        reveal_strlit("// scraper_data_begin");
        reveal_strlit(r#"window["ytInitialData"]"#);
    }
    let start: usize = if let Some(i) = text::find_from(chars, &m1, 0) {
        i + m1.len() + 1
    } else if let Some(i) = text::find_from(chars, &m2, 0) {
        i + m2.len() + 21
    } else if let Some(i) = text::find_from(chars, &m3, 0) {
        i + m3.len() + 3
    } else {
        return Err(ExtractError::BlobStartNotFound);
    };
    let term = text::str_to_chars("};");
    proof {
        reveal_strlit("};");
    }
    match text::find_from(chars, &term, start) {
        Some(i) => Ok(RawSpan { start, end: i + 1 }),
        None => Err(ExtractError::BlobEndNotFound),
    }
}

/// The blob's span in `text`, or the structural error saying which bound
/// was missing.
pub fn locate_blob(text: &str) -> (r: Result<RawSpan, ExtractError>)
    requires
        text@.len() < usize::MAX - 21,
    ensures
        match r {
            Ok(span) => spec_blob_start(text@) == Some(span.start as int) && spec_blob_end(
                text@,
                span.start as int,
            ) == Some(span.end as int) && span.start <= span.end <= text@.len(),
            Err(e) => match spec_blob_start(text@) {
                None => e == ExtractError::BlobStartNotFound,
                Some(s) => spec_blob_end(text@, s) is None && e
                    == ExtractError::BlobEndNotFound,
            },
        },
{
    let chars = text::str_to_chars(text);
    locate_chars(&chars)
}

/// A copy of `text[start..end]`.
fn sub_chars(chars: &Vec<char>, start: usize, end: usize) -> (r: Vec<char>)
    requires
        start <= end <= chars@.len(),
    ensures
        r@ == chars@.subrange(start as int, end as int),
{
    let mut r: Vec<char> = Vec::new();
    let mut i = start;
    while i < end
        invariant
            start <= i <= end <= chars@.len(),
            r@ =~= chars@.subrange(start as int, i as int),
        decreases end - i,
    {
        r.push(chars[i]);
        i += 1;
    }
    proof {
        assert(r@ =~= chars@.subrange(start as int, end as int));
    }
    r
}

// ---------------------------------------------------------------------------
// The fixed paths
// ---------------------------------------------------------------------------

/// The path from the blob's root to the results list.
pub open spec fn results_path() -> Seq<SegModel> {
    seq![
        SegModel::Key("contents"@),
        SegModel::Key("twoColumnSearchResultsRenderer"@),
        SegModel::Key("primaryContents"@),
        SegModel::Key("sectionListRenderer"@),
        SegModel::Key("contents"@),
        SegModel::Index(0),
        SegModel::Key("itemSectionRenderer"@),
        SegModel::Key("contents"@),
    ]
}

/// The path from a results-list element to the video's identifier.
pub open spec fn id_path() -> Seq<SegModel> {
    seq![SegModel::Key("videoRenderer"@), SegModel::Key("videoId"@)]
}

/// The path from a results-list element to the video's title text.
pub open spec fn title_path() -> Seq<SegModel> {
    seq![
        SegModel::Key("videoRenderer"@),
        SegModel::Key("title"@),
        SegModel::Key("runs"@),
        SegModel::Index(0),
        SegModel::Key("text"@),
    ]
}

fn results_path_exec() -> (r: PathExpression)
    ensures
        r.deep() == results_path(),
{
    let mut p = PathExpression::empty();
    p.push_key("contents");
    p.push_key("twoColumnSearchResultsRenderer");
    p.push_key("primaryContents");
    p.push_key("sectionListRenderer");
    p.push_key("contents");
    p.push_index(0);
    p.push_key("itemSectionRenderer");
    p.push_key("contents");
    proof {
        assert(p.deep() =~= results_path());
    }
    p
}

fn id_path_exec() -> (r: PathExpression)
    ensures
        r.deep() == id_path(),
{
    let mut p = PathExpression::empty();
    p.push_key("videoRenderer");
    p.push_key("videoId");
    proof {
        assert(p.deep() =~= id_path());
    }
    p
}

fn title_path_exec() -> (r: PathExpression)
    ensures
        r.deep() == title_path(),
{
    let mut p = PathExpression::empty();
    p.push_key("videoRenderer");
    p.push_key("title");
    p.push_key("runs");
    p.push_index(0);
    p.push_key("text");
    proof {
        assert(p.deep() =~= title_path());
    }
    p
}

// ---------------------------------------------------------------------------
// Per-element extraction and the whole pipeline
// ---------------------------------------------------------------------------

/// The (id, title) pair of a results-list element, when both fields
/// resolve to strings; anything else is no video.
pub open spec fn video_of(e: ValueModel) -> Option<(Seq<char>, Seq<char>)> {
    match (path::spec_eval(e, id_path(), 0), path::spec_eval(e, title_path(), 0)) {
        (Some(ValueModel::Str(id)), Some(ValueModel::Str(title))) => Some((id, title)),
        _ => None,
    }
}

/// The (id, title) pairs of the well-formed elements of `es`, in order.
pub open spec fn spec_videos(es: Seq<ValueModel>) -> Seq<(Seq<char>, Seq<char>)>
    decreases es,
{
    if es.len() == 0 {
        Seq::empty()
    } else {
        match video_of(es[0]) {
            Some(p) => seq![p] + spec_videos(es.drop_first()),
            None => spec_videos(es.drop_first()),
        }
    }
}

/// How many elements of `es` are well-formed videos.
pub open spec fn valid_count(es: Seq<ValueModel>) -> int
    decreases es,
{
    if es.len() == 0 {
        0
    } else {
        (if video_of(es[0]) is Some {
            1int
        } else {
            0int
        }) + valid_count(es.drop_first())
    }
}

/// Exactly one record per well-formed element: the extracted list is as
/// long as the count of elements carrying both fields as strings.
pub proof fn lemma_videos_count(es: Seq<ValueModel>)
    ensures
        spec_videos(es).len() == valid_count(es),
    decreases es.len(),
{
    if es.len() > 0 {
        lemma_videos_count(es.drop_first());
    }
}

/// Whether the extracted records carry exactly the modelled pairs.
pub open spec fn videos_match(vs: Seq<Video>, ps: Seq<(Seq<char>, Seq<char>)>) -> bool {
    vs.len() == ps.len() && forall|i: int|
        0 <= i < vs.len() ==> (#[trigger] vs[i]).id@ == ps[i].0 && vs[i].title@ == ps[i].1
}

/// Everything `extract` does, as a function of the text: the blob is
/// located and bounded, parsed, the results list fetched, and the
/// well-formed elements turned into pairs; each structural failure is its
/// own error.
pub open spec fn spec_extract(t: Seq<char>) -> Result<Seq<(Seq<char>, Seq<char>)>, ExtractError> {
    match spec_blob_start(t) {
        None => Err(ExtractError::BlobStartNotFound),
        Some(start) => match spec_blob_end(t, start) {
            None => Err(ExtractError::BlobEndNotFound),
            Some(end) => match json::spec_parse_text(t.subrange(start, end)) {
                None => Err(ExtractError::ResultsPathNotFound),
                Some(root) => match path::spec_eval(root, results_path(), 0) {
                    Some(ValueModel::Arr(es)) => Ok(spec_videos(es)),
                    _ => Err(ExtractError::ResultsPathNotFound),
                },
            },
        },
    }
}

/// When none of the three markers occurs anywhere in the text, extraction
/// fails with `BlobStartNotFound`.
pub proof fn lemma_no_marker_no_start(t: Seq<char>)
    requires
        forall|i: int| !text::occurs_at(t, marker1(), i),
        forall|i: int| !text::occurs_at(t, marker2(), i),
        forall|i: int| !text::occurs_at(t, marker3(), i),
    ensures
        spec_extract(t) == Err::<Seq<(Seq<char>, Seq<char>)>, ExtractError>(
            ExtractError::BlobStartNotFound,
        ),
{
    reveal_strlit("var ytInitialData =");
    reveal_strlit("// scraper_data_begin");
    reveal_strlit(r#"window["ytInitialData"]"#);
    text::lemma_find_none(t, marker1(), 0);
    text::lemma_find_none(t, marker2(), 0);
    text::lemma_find_none(t, marker3(), 0);
}

/// When a marker gives a blob start but `};` occurs nowhere at or after
/// it, extraction fails with `BlobEndNotFound`.
pub proof fn lemma_no_terminator_no_end(t: Seq<char>)
    requires
        spec_blob_start(t) is Some,
        forall|i: int| i >= spec_blob_start(t)->0 ==> !text::occurs_at(t, terminator(), i),
    ensures
        spec_extract(t) == Err::<Seq<(Seq<char>, Seq<char>)>, ExtractError>(
            ExtractError::BlobEndNotFound,
        ),
{
    reveal_strlit("var ytInitialData =");
    reveal_strlit("// scraper_data_begin");
    reveal_strlit(r#"window["ytInitialData"]"#);
    reveal_strlit("};");
    let start = spec_blob_start(t)->0;
    if text::spec_find(t, marker1(), 0) is Some {
        text::lemma_find_some_bounds(t, marker1(), 0);
    } else if text::spec_find(t, marker2(), 0) is Some {
        text::lemma_find_some_bounds(t, marker2(), 0);
    } else {
        text::lemma_find_some_bounds(t, marker3(), 0);
    }
    assert(start >= 0);
    assert(forall|i: int| start <= i ==> !text::occurs_at(t, terminator(), i));
    text::lemma_find_none(t, terminator(), start as nat);
}

/// Marker priority: whenever the first marker occurs anywhere in the
/// text, the blob start is derived from its first occurrence, whatever
/// the other markers would give.
pub proof fn lemma_marker_priority(t: Seq<char>, i: int)
    requires
        text::occurs_at(t, marker1(), i),
    ensures
        spec_blob_start(t) == Some(
            text::spec_find(t, marker1(), 0)->0 + marker1().len() + 1,
        ),
{
    reveal_strlit("var ytInitialData =");
    text::lemma_find_finds(t, marker1(), 0, i);
}

/// Extraction is a function of the text alone: two runs over the same
/// text stand or fall together, with the same records or the same error.
pub proof fn lemma_extract_deterministic(
    t: Seq<char>,
    r1: Result<Seq<(Seq<char>, Seq<char>)>, ExtractError>,
    r2: Result<Seq<(Seq<char>, Seq<char>)>, ExtractError>,
)
    requires
        r1 == spec_extract(t),
        r2 == spec_extract(t),
    ensures
        r1 == r2,
{
}

fn element_video(e: &Value, idp: &PathExpression, tp: &PathExpression) -> (r: Option<Video>)
    requires
        idp.deep() == id_path(),
        tp.deep() == title_path(),
    ensures
        match r {
            Some(v) => video_of(e.deep()) == Some((v.id@, v.title@)),
            None => video_of(e.deep()) is None,
        },
{
    let idc = match path::evaluate(e, idp) {
        Some(w) => match w {
            Value::Str(c) => c,
            _ => {
                return None;
            },
        },
        None => {
            return None;
        },
    };
    let tc = match path::evaluate(e, tp) {
        Some(w) => match w {
            Value::Str(c) => c,
            _ => {
                return None;
            },
        },
        None => {
            return None;
        },
    };
    Some(Video { id: text::chars_to_string(idc), title: text::chars_to_string(tc) })
}

/// All video records of the text, in results-list order: `Ok` exactly when
/// the blob is found, bounded, parsed, and the results path reaches an
/// array; otherwise the structural error of the first step that failed.
pub fn extract_all(text: &str) -> (r: Result<Vec<Video>, ExtractError>)
    requires
        text@.len() < usize::MAX - 21,
    ensures
        match r {
            Ok(vs) => spec_extract(text@) is Ok && videos_match(vs@, spec_extract(text@)->Ok_0),
            Err(e) => spec_extract(text@) is Err && spec_extract(text@)->Err_0 == e,
        },
{
    let chars = text::str_to_chars(text);
    let span = match locate_chars(&chars) {
        Ok(s) => s,
        Err(e) => {
            return Err(e);
        },
    };
    let sub = sub_chars(&chars, span.start, span.end);
    let root = match json::parse_text(&sub) {
        Some(v) => v,
        None => {
            return Err(ExtractError::ResultsPathNotFound);
        },
    };
    let rp = results_path_exec();
    let arr: &Vec<Value> = match path::evaluate(&root, &rp) {
        Some(w) => match w {
            Value::Arr(es) => es,
            _ => {
                return Err(ExtractError::ResultsPathNotFound);
            },
        },
        None => {
            return Err(ExtractError::ResultsPathNotFound);
        },
    };
    let idp = id_path_exec();
    let tp = title_path_exec();
    let ghost d = json::deep_seq(arr@);
    proof {
        json::lemma_deep_seq(arr@);
        assert(d.skip(0) =~= d);
    }
    let mut out: Vec<Video> = Vec::new();
    let ghost mut acc: Seq<(Seq<char>, Seq<char>)> = Seq::empty();
    proof {
        assert(Seq::<(Seq<char>, Seq<char>)>::empty() + spec_videos(d) =~= spec_videos(d));
    }
    let mut i: usize = 0;
    while i < arr.len()
        invariant
            i <= arr@.len(),
            d == json::deep_seq(arr@),
            d.len() == arr@.len(),
            forall|j: int| 0 <= j < arr@.len() ==> d[j] == arr@[j].deep(),
            idp.deep() == id_path(),
            tp.deep() == title_path(),
            spec_videos(d) == acc + spec_videos(d.skip(i as int)),
            videos_match(out@, acc),
        decreases arr@.len() - i,
    {
        proof {
            assert(d.skip(i as int).len() > 0);
            assert(d.skip(i as int)[0] == d[i as int]);
            assert(d.skip(i as int).drop_first() =~= d.skip(i as int + 1));
        }
        match element_video(&arr[i], &idp, &tp) {
            Some(v) => {
                proof {
                    let ghost old_acc = acc;
                    let ghost p = (v.id@, v.title@);
                    assert(spec_videos(d.skip(i as int)) == seq![p] + spec_videos(
                        d.skip(i as int + 1),
                    ));
                    acc = acc + seq![p];
                    assert(old_acc + (seq![p] + spec_videos(d.skip(i as int + 1))) =~= acc
                        + spec_videos(d.skip(i as int + 1)));
                }
                out.push(v);
            },
            None => {
                proof {
                    assert(spec_videos(d.skip(i as int)) == spec_videos(d.skip(i as int + 1)));
                }
            },
        }
        i += 1;
    }
    proof {
        assert(d.skip(arr@.len() as int).len() == 0);
        assert(acc + spec_videos(d.skip(arr@.len() as int)) =~= acc);
    }
    Ok(out)
}

/// Whether `b` is an answer the callback can give when handed a record
/// carrying the pair `p`.
pub open spec fn answered<F: Fn(Video) -> bool>(f: F, p: (Seq<char>, Seq<char>), b: bool) -> bool {
    exists|v: Video|
        #[trigger] call_ensures(f, (v,), b) && v.id@ == p.0 && v.title@ == p.1
}

/// How a run of the callback over the pairs `ps` can answer: one answer
/// per record handed over, front to back, every answer but the last
/// `true`, and the run covers all of `ps` unless a `false` stopped it.
pub open spec fn delivery_answers<F: Fn(Video) -> bool>(
    f: F,
    ps: Seq<(Seq<char>, Seq<char>)>,
    bs: Seq<bool>,
) -> bool {
    &&& bs.len() <= ps.len()
    &&& forall|i: int| 0 <= i < bs.len() ==> #[trigger] answered(f, ps[i], bs[i])
    &&& forall|i: int| 0 <= i < bs.len() - 1 ==> #[trigger] bs[i]
    &&& (bs.len() < ps.len() ==> bs.len() > 0 && !bs[bs.len() - 1])
}

/// Whether some run of the callback over the pairs `ps` accounts for what
/// `extract` did: there is a sequence of answers as `delivery_answers`
/// describes.
pub open spec fn delivered<F: Fn(Video) -> bool>(f: F, ps: Seq<(Seq<char>, Seq<char>)>) -> bool {
    exists|bs: Seq<bool>| #[trigger] delivery_answers(f, ps, bs)
}

/// Extracts the records of `text` and hands each to `f` in order, stopping
/// as soon as `f` returns false; early stop is success. The errors are
/// exactly those of `extract_all`.
pub fn extract<F: Fn(Video) -> bool>(text: &str, f: F) -> (r: Result<(), ExtractError>)
    requires
        text@.len() < usize::MAX - 21,
        forall|v: Video| #[trigger] call_requires(f, (v,)),
    ensures
        match r {
            Ok(u) => spec_extract(text@) is Ok && delivered(f, spec_extract(text@)->Ok_0),
            Err(e) => spec_extract(text@) is Err && spec_extract(text@)->Err_0 == e,
        },
{
    let mut vs = match extract_all(text) {
        Ok(vs) => vs,
        Err(e) => {
            return Err(e);
        },
    };
    let ghost ps = spec_extract(text@)->Ok_0;
    let ghost orig = vs@;
    let total = vs.len();
    let ghost mut bs: Seq<bool> = Seq::empty();
    let mut k: usize = 0;
    proof {
        assert(vs@ =~= orig.skip(0));
    }
    while vs.len() > 0
        invariant
            forall|v: Video| #[trigger] call_requires(f, (v,)),
            spec_extract(text@) is Ok,
            ps == spec_extract(text@)->Ok_0,
            videos_match(orig, ps),
            orig.len() == total,
            k <= orig.len(),
            vs@ == orig.skip(k as int),
            bs.len() == k,
            forall|i: int| 0 <= i < bs.len() ==> #[trigger] answered(f, ps[i], bs[i]),
            forall|i: int| 0 <= i < bs.len() ==> #[trigger] bs[i],
        decreases vs@.len(),
    {
        let v = vs.remove(0);
        let ghost gv = v;
        proof {
            assert(orig.skip(k as int)[0] == orig[k as int]);
            assert(orig.skip(k as int).remove(0) =~= orig.skip(k as int + 1));
        }
        let b = f(v);
        proof {
            assert(call_ensures(f, (gv,), b));
            assert(gv.id@ == ps[k as int].0 && gv.title@ == ps[k as int].1);
            assert(answered(f, ps[k as int], b));
            bs = bs.push(b);
        }
        k += 1;
        if !b {
            proof {
                assert(delivery_answers(f, ps, bs));
                assert(delivered(f, ps));
            }
            return Ok(());
        }
    }
    proof {
        assert(bs.len() == ps.len());
        assert(delivery_answers(f, ps, bs));
        assert(delivered(f, ps));
    }
    Ok(())
}

} // verus!
