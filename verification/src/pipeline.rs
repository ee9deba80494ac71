use vstd::prelude::*;
use crate::chars::str_to_chars;
use crate::chars::quoted;
use crate::chars::chars_to_string;
use crate::nums::render_i32;
use crate::nums::format_i32;
use crate::ts::Timestamp;
use crate::ts::render_ts;
use crate::ts::format_timestamp;
use crate::review::Review;
use crate::review::ReviewV;
use crate::review::ErrorReview;
use crate::review::validate_line;
use crate::duplicates::DedupIndex;
use crate::duplicates::has_id;
use crate::duplicates::line_records;
use crate::duplicates::index_of_recs;
use crate::duplicates::body_lines;
use crate::duplicates::rejected_count;
use crate::duplicates::repeated_count;
use crate::duplicates::get_uuids_set;
use crate::validate::Validator;

verus! {

/// The canonical text of one record: the seven fields in the canonical
/// column order, each double-quoted, joined by commas.
pub open spec fn canonical_line(r: ReviewV) -> Seq<char> {
    quoted(r.id) + seq![','] + quoted(r.user_name) + seq![','] + quoted(r.content) + seq![',']
        + quoted(render_i32(r.score)) + seq![','] + quoted(render_i32(r.thumbs_up)) + seq![',']
        + quoted(render_ts(r.date)) + seq![','] + quoted(r.app_version)
}

/// The canonical header line.
pub open spec fn header_chars() -> Seq<char> {
    "reviewId,userName,content,score,thumbsUpCount,date,appVersion"@
}

/// The records pass 2 emits against index `m`: in line order, each valid
/// record whose timestamp equals its identifier's indexed maximum, at most
/// once per identifier.
pub open spec fn emit_of(recs: Seq<ReviewV>, m: Map<Seq<char>, Timestamp>) -> Seq<ReviewV>
    decreases recs.len(),
{
    if recs.len() == 0 {
        Seq::empty()
    } else {
        let prev = emit_of(recs.drop_last(), m);
        let r = recs.last();
        if m.contains_key(r.id) && r.date == m[r.id] && !has_id(prev, r.id) {
            prev.push(r)
        } else {
            prev
        }
    }
}

/// The lines pass 2 counts as errors: failed validation, or a valid
/// identifier missing from the index (an orphan).
pub open spec fn pass2_rejected(
    lines: Seq<Seq<char>>,
    sep: Seq<char>,
    strict: bool,
    m: Map<Seq<char>, Timestamp>,
) -> nat
    decreases lines.len(),
{
    if lines.len() == 0 {
        0
    } else {
        pass2_rejected(lines.drop_last(), sep, strict, m) + match validate_line(
            lines.last(),
            sep,
            strict,
        ) {
            Ok(rv) => if m.contains_key(rv.id) {
                0nat
            } else {
                1nat
            },
            Err(_) => 1nat,
        }
    }
}

/// The canonical record set of an input: for each identifier, the first
/// record carrying the identifier's maximum timestamp.
pub open spec fn dedup_records(recs: Seq<ReviewV>) -> Seq<ReviewV> {
    emit_of(recs, index_of_recs(recs))
}

/// Append all characters of `f`.
fn push_all(out: &mut Vec<char>, f: &Vec<char>)
    ensures
        final(out)@ == old(out)@ + f@,
{
    let n = f.len();
    let mut i: usize = 0;
    while i < n
        invariant
            i <= n,
            n == f@.len(),
            out@ == old(out)@ + f@.subrange(0, i as int),
        decreases n - i,
    {
        out.push(f[i]);
        proof {
            assert(old(out)@ + f@.subrange(0, i + 1 as int) =~= (old(out)@ + f@.subrange(
                0,
                i as int,
            )).push(f@[i as int]));
        }
        i += 1;
    }
    proof {
        assert(f@.subrange(0, n as int) =~= f@);
    }
}

/// Append a double-quoted field.
fn push_quoted(out: &mut Vec<char>, f: &Vec<char>)
    ensures
        final(out)@ == old(out)@ + quoted(f@),
{
    out.push('"');
    push_all(out, f);
    out.push('"');
    proof {
        assert(final(out)@ =~= old(out)@ + quoted(f@));
    }
}

/// The canonical text of one record, as `canonical_line` says.
pub fn format_review(r: &Review) -> (out: Vec<char>)
    ensures
        out@ == canonical_line(r@),
{
    let mut out: Vec<char> = Vec::new();
    let f0 = str_to_chars(r.id.as_str());
    push_quoted(&mut out, &f0);
    out.push(',');
    let f1 = str_to_chars(r.user_name.as_str());
    push_quoted(&mut out, &f1);
    out.push(',');
    let f2 = str_to_chars(r.content.as_str());
    push_quoted(&mut out, &f2);
    out.push(',');
    let f3 = format_i32(r.score);
    push_quoted(&mut out, &f3);
    out.push(',');
    let f4 = format_i32(r.thumbs_up);
    push_quoted(&mut out, &f4);
    out.push(',');
    let f5 = format_timestamp(&r.date);
    push_quoted(&mut out, &f5);
    out.push(',');
    let f6 = str_to_chars(r.app_version.as_str());
    push_quoted(&mut out, &f6);
    proof {
        assert(out@ =~= canonical_line(r@));
    }
    out
}

/// The canonical header, written once before any record.
pub fn header_line() -> (s: String)
    ensures
        s@ == header_chars(),
{
    "reviewId,userName,content,score,thumbsUpCount,date,appVersion".to_owned()
}

/// Whether `id` is among the already-emitted identifiers.
fn contains_id(seen: &Vec<String>, id: &String) -> (r: bool)
    ensures
        r == exists|k: int| 0 <= k < seen@.len() && (#[trigger] seen@[k])@ == id@,
{
    let n = seen.len();
    let mut i: usize = 0;
    while i < n
        invariant
            i <= n,
            n == seen@.len(),
            forall|k: int| 0 <= k < i ==> (#[trigger] seen@[k])@ != id@,
        decreases n - i,
    {
        if seen[i] == *id {
            return true;
        }
        i += 1;
    }
    false
}

/// One pass-2 step: validate the line, look its identifier up in the
/// index, and decide. `Ok(Some(..))` carries the record to emit, with its
/// identifier added to the seen set; `Ok(None)` is a silent skip (a
/// superseded record, or a tie whose identifier was already emitted); an
/// error names the rejection, `OrphanIdentifier` standing for a valid
/// identifier that the index does not hold.
pub fn process_line(
    validator: &Validator,
    line: &str,
    sep: &str,
    index: &DedupIndex,
    seen: &mut Vec<String>,
) -> (r: Result<Option<Review>, ErrorReview>)
    requires
        index.wf(),
    ensures
        match validate_line(line@, sep@, validator.strict()) {
            Err(e) => r matches Err(got) && got == e && final(seen)@ == old(seen)@,
            Ok(rv) => {
                if !index@.contains_key(rv.id) {
                    r matches Err(got) && got == ErrorReview::OrphanIdentifier && final(seen)@
                        == old(seen)@
                } else if rv.date == index@[rv.id] && !(exists|k: int|
                    0 <= k < old(seen)@.len() && (#[trigger] old(seen)@[k])@ == rv.id) {
                    r matches Ok(opt) && opt matches Some(rev) && rev@ == rv && final(seen)@ == old(
                        seen,
                    )@.push(rev.id)
                } else {
                    r matches Ok(opt) && opt is None && final(seen)@ == old(seen)@
                }
            },
        },
{
    let review = match Review::new(validator, line, sep) {
        Ok(review) => review,
        Err(e) => {
            return Err(e);
        },
    };
    match index.get(&review.id) {
        None => Err(ErrorReview::OrphanIdentifier),
        Some(maxts) => {
            if review.date == maxts {
                if !contains_id(seen, &review.id) {
                    let id_copy = review.id.clone();
                    seen.push(id_copy);
                    Ok(Some(review))
                } else {
                    Ok(None)
                }
            } else {
                Ok(None)
            }
        },
    }
}

/// What pass 2 produced: the emitted records, the canonical output lines
/// (header first), and the run counters.
pub struct Pass2 {
    pub records: Vec<Review>,
    pub output: Vec<String>,
    pub accepted: usize,
    pub rejected: usize,
}

/// Pass 2: re-stream the body lines, validate each exactly as pass 1 did,
/// and emit each identifier's record once, at the identifier's indexed
/// maximum timestamp; ties after the first emission are skipped silently.
pub fn process_lines(
    validator: &Validator,
    lines: &Vec<String>,
    sep: &str,
    skip: usize,
    index: &DedupIndex,
) -> (out: Pass2)
    requires
        index.wf(),
    ensures
        ({
            let body = body_lines(lines.deep_view(), skip as int);
            let emitted = emit_of(line_records(body, sep@, validator.strict()), index@);
            &&& out.records.deep_view() == emitted
            &&& out.output@.len() == emitted.len() + 1
            &&& out.output@[0]@ == header_chars()
            &&& forall|k: int|
                0 <= k < emitted.len() ==> (#[trigger] out.output@[k + 1])@ == canonical_line(
                    emitted[k],
                )
            &&& out.accepted == emitted.len()
            &&& out.rejected == pass2_rejected(body, sep@, validator.strict(), index@)
        }),
{
    let ghost all = lines.deep_view();
    let ghost strict = validator.strict();
    let ghost m = index@;
    let n = lines.len();
    let mut records: Vec<Review> = Vec::new();
    let mut output: Vec<String> = Vec::new();
    let mut seen: Vec<String> = Vec::new();
    let mut accepted: usize = 0;
    let mut rejected: usize = 0;
    output.push(header_line());
    let ghost start: int = if skip <= n {
        skip as int
    } else {
        n as int
    };
    let mut i: usize = if skip <= n {
        skip
    } else {
        n
    };
    proof {
        assert(all.subrange(start, start) =~= Seq::empty());
    }
    while i < n
        invariant
            start == if skip <= n as usize {
                skip as int
            } else {
                n as int
            },
            start <= i as int <= n as int,
            n == all.len(),
            all == lines.deep_view(),
            strict == validator.strict(),
            m == index@,
            index.wf(),
            records.deep_view() == emit_of(line_records(all.subrange(start, i as int), sep@, strict), m),
            accepted == records@.len(),
            accepted <= i,
            seen@.len() == records@.len(),
            forall|k: int| 0 <= k < seen@.len() ==> (#[trigger] seen@[k])@ == records.deep_view()[k].id,
            output@.len() == records@.len() + 1,
            output@[0]@ == header_chars(),
            forall|k: int|
                0 <= k < records@.len() ==> (#[trigger] output@[k + 1])@ == canonical_line(
                    records.deep_view()[k],
                ),
            rejected <= i,
            rejected == pass2_rejected(all.subrange(start, i as int), sep@, strict, m),
        decreases n - i,
    {
        let ghost pre = all.subrange(start, i as int);
        let ghost cur = all.subrange(start, i as int + 1);
        let ghost prev_recs = line_records(pre, sep@, strict);
        let ghost prev_emit = emit_of(prev_recs, m);
        proof {
            assert(cur.drop_last() =~= pre);
            assert(cur.last() == all[i as int]);
            assert(all[i as int] == lines@[i as int]@);
        }
        let ghost old_seen = seen@;
        let ghost verdict = validate_line(cur.last(), sep@, strict);
        match process_line(validator, lines[i].as_str(), sep, index, &mut seen) {
            Ok(opt) => match opt {
                Some(review) => {
                    let ghost rv = verdict->Ok_0;
                    proof {
                        assert(verdict is Ok);
                        assert(review@ == rv);
                        assert(line_records(cur, sep@, strict) == prev_recs.push(rv));
                        assert(prev_recs.push(rv).drop_last() =~= prev_recs);
                        assert(prev_recs.push(rv).last() == rv);
                        assert(m.contains_key(rv.id) && rv.date == m[rv.id]);
                        if has_id(prev_emit, rv.id) {
                            let k = choose|k: int|
                                0 <= k < prev_emit.len() && (#[trigger] prev_emit[k]).id == rv.id;
                            assert(old_seen[k]@ == rv.id);
                        }
                        assert(!has_id(prev_emit, rv.id));
                        assert(pass2_rejected(cur, sep@, strict, m) == pass2_rejected(
                            pre,
                            sep@,
                            strict,
                            m,
                        ));
                    }
                    let line_chars = format_review(&review);
                    let ghost old_records = records.deep_view();
                    output.push(chars_to_string(&line_chars));
                    records.push(review);
                    accepted += 1;
                    proof {
                        assert(records.deep_view() =~~= old_records.push(rv));
                        assert(emit_of(line_records(cur, sep@, strict), m) == prev_emit.push(rv));
                        assert(seen@ =~= old_seen.push(seen@.last()));
                        assert(seen@.last()@ == rv.id);
                    }
                },
                None => {
                    proof {
                        assert(verdict is Ok);
                        let rv = verdict->Ok_0;
                        assert(line_records(cur, sep@, strict) == prev_recs.push(rv));
                        assert(prev_recs.push(rv).drop_last() =~= prev_recs);
                        assert(prev_recs.push(rv).last() == rv);
                        assert(m.contains_key(rv.id));
                        if rv.date == m[rv.id] {
                            let k = choose|k: int|
                                0 <= k < old_seen.len() && (#[trigger] old_seen[k])@ == rv.id;
                            assert(prev_emit[k].id == rv.id);
                            assert(has_id(prev_emit, rv.id));
                        }
                        assert(emit_of(line_records(cur, sep@, strict), m) == prev_emit);
                        assert(pass2_rejected(cur, sep@, strict, m) == pass2_rejected(
                            pre,
                            sep@,
                            strict,
                            m,
                        ));
                    }
                },
            },
            Err(_) => {
                proof {
                    if verdict is Ok {
                        let rv = verdict->Ok_0;
                        assert(!m.contains_key(rv.id));
                        assert(line_records(cur, sep@, strict) == prev_recs.push(rv));
                        assert(prev_recs.push(rv).drop_last() =~= prev_recs);
                        assert(prev_recs.push(rv).last() == rv);
                        assert(emit_of(line_records(cur, sep@, strict), m) == prev_emit);
                    } else {
                        assert(line_records(cur, sep@, strict) == prev_recs);
                    }
                    assert(pass2_rejected(cur, sep@, strict, m) == pass2_rejected(
                        pre,
                        sep@,
                        strict,
                        m,
                    ) + 1);
                }
                rejected += 1;
            },
        }
        i += 1;
    }
    proof {
        assert(all.subrange(start, n as int) =~= body_lines(all, skip as int));
    }
    Pass2 { records, output, accepted, rejected }
}

/// The result of one full run.
pub struct RunReport {
    pub records: Vec<Review>,
    pub output: Vec<String>,
    pub accepted: usize,
    pub rejected: usize,
    pub pass1_rejected: usize,
    pub repeated: usize,
}

/// One full run: pass 1 builds the complete index over the body lines,
/// and only then pass 2 re-reads the same lines and emits each
/// identifier's canonical record. The emitted records are exactly
/// `dedup_records` of the input's valid records.
pub fn run_pipeline(validator: &Validator, lines: &Vec<String>, sep: &str, skip: usize) -> (out:
    RunReport)
    ensures
        ({
            let body = body_lines(lines.deep_view(), skip as int);
            let recs = line_records(body, sep@, validator.strict());
            &&& out.records.deep_view() == dedup_records(recs)
            &&& out.output@.len() == dedup_records(recs).len() + 1
            &&& out.output@[0]@ == header_chars()
            &&& forall|k: int|
                0 <= k < dedup_records(recs).len() ==> (#[trigger] out.output@[k + 1])@
                    == canonical_line(dedup_records(recs)[k])
            &&& out.accepted == dedup_records(recs).len()
            &&& out.rejected == pass2_rejected(body, sep@, validator.strict(), index_of_recs(recs))
            &&& out.pass1_rejected == rejected_count(body, sep@, validator.strict())
            &&& out.repeated == repeated_count(body, sep@, validator.strict())
        }),
{
    let p1 = get_uuids_set(validator, lines, sep, skip);
    let p2 = process_lines(validator, lines, sep, skip, &p1.index);
    RunReport {
        records: p2.records,
        output: p2.output,
        accepted: p2.accepted,
        rejected: p2.rejected,
        pass1_rejected: p1.rejected,
        repeated: p1.repeated,
    }
}

} // verus!
