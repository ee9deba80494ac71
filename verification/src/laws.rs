use vstd::prelude::*;
use crate::ts::Timestamp;
use crate::ts::ts_le;
use crate::review::ReviewV;
use crate::review::validate_line;
use crate::duplicates::has_id;
use crate::duplicates::line_records;
use crate::duplicates::index_of_recs;
use crate::duplicates::lemma_index_dom;
use crate::duplicates::lemma_index_characterization;
use crate::duplicates::rejected_count;
use crate::pipeline::emit_of;
use crate::pipeline::pass2_rejected;
use crate::pipeline::dedup_records;

verus! {

/// Line `j` validates to a record carrying identifier `id`.
pub open spec fn valid_line_with_id(
    lines: Seq<Seq<char>>,
    sep: Seq<char>,
    strict: bool,
    j: int,
    id: Seq<char>,
) -> bool {
    0 <= j < lines.len() && match validate_line(lines[j], sep, strict) {
        Ok(rv) => rv.id == id,
        Err(_) => false,
    }
}

/// What pass 2 emits against any index `m`: identifiers never repeat; every
/// emitted record is a record of the input whose timestamp is its
/// identifier's indexed value; every input record at its indexed timestamp
/// gets its identifier emitted; no new identifiers appear.
pub proof fn lemma_emit_characterization(recs: Seq<ReviewV>, m: Map<Seq<char>, Timestamp>)
    ensures
        forall|k1: int, k2: int|
            0 <= k1 < k2 < emit_of(recs, m).len() ==> (#[trigger] emit_of(recs, m)[k1]).id != (
            #[trigger] emit_of(recs, m)[k2]).id,
        forall|k: int|
            0 <= k < emit_of(recs, m).len() ==> {
                let r = #[trigger] emit_of(recs, m)[k];
                &&& m.contains_key(r.id)
                &&& r.date == m[r.id]
                &&& exists|j: int| 0 <= j < recs.len() && recs[j] == r
            },
        forall|j: int|
            0 <= j < recs.len() && m.contains_key((#[trigger] recs[j]).id) && recs[j].date
                == m[recs[j].id] ==> has_id(emit_of(recs, m), recs[j].id),
        forall|id: Seq<char>| has_id(emit_of(recs, m), id) ==> has_id(recs, id),
    decreases recs.len(),
{
    if recs.len() > 0 {
        let prev = recs.drop_last();
        let r = recs.last();
        let pe = emit_of(prev, m);
        let out = emit_of(recs, m);
        lemma_emit_characterization(prev, m);
        assert(out == if m.contains_key(r.id) && r.date == m[r.id] && !has_id(pe, r.id) {
            pe.push(r)
        } else {
            pe
        });
        assert forall|k1: int, k2: int| 0 <= k1 < k2 < out.len() implies (#[trigger] out[k1]).id
            != (#[trigger] out[k2]).id by {
            if k2 < pe.len() {
            } else {
                assert(out[k1] == pe[k1]);
                assert(!has_id(pe, r.id));
                if pe[k1].id == r.id {
                    assert(has_id(pe, r.id));
                }
            }
        }
        assert forall|k: int| 0 <= k < out.len() implies {
            let rr = #[trigger] out[k];
            &&& m.contains_key(rr.id)
            &&& rr.date == m[rr.id]
            &&& exists|j: int| 0 <= j < recs.len() && recs[j] == rr
        } by {
            if k < pe.len() {
                assert(out[k] == pe[k]);
                let j = choose|j: int| 0 <= j < prev.len() && prev[j] == pe[k];
                assert(recs[j] == out[k]);
            } else {
                assert(out[k] == r);
                assert(recs[recs.len() - 1] == r);
            }
        }
        assert forall|j: int|
            0 <= j < recs.len() && m.contains_key((#[trigger] recs[j]).id) && recs[j].date
                == m[recs[j].id] implies has_id(out, recs[j].id) by {
            if j < recs.len() - 1 {
                assert(prev[j] == recs[j]);
                assert(has_id(pe, recs[j].id));
                let k = choose|k: int| 0 <= k < pe.len() && (#[trigger] pe[k]).id == recs[j].id;
                assert(out[k].id == recs[j].id);
            } else {
                if has_id(pe, r.id) {
                    let k = choose|k: int| 0 <= k < pe.len() && (#[trigger] pe[k]).id == r.id;
                    assert(out[k].id == r.id);
                } else {
                    assert(out[out.len() - 1].id == r.id);
                }
            }
        }
        assert forall|id: Seq<char>| has_id(out, id) implies has_id(recs, id) by {
            let k = choose|k: int| 0 <= k < out.len() && (#[trigger] out[k]).id == id;
            if k < pe.len() {
                assert(has_id(pe, id));
                let j = choose|j: int| 0 <= j < prev.len() && (#[trigger] prev[j]).id == id;
                assert(recs[j].id == id);
            } else {
                assert(recs[recs.len() - 1].id == id);
            }
        }
    }
}

/// Every valid line's record is among the records, and every record comes
/// from a valid line.
#[verifier::rlimit(60)]
pub proof fn lemma_line_records_complete(lines: Seq<Seq<char>>, sep: Seq<char>, strict: bool)
    ensures
        forall|j: int|
            0 <= j < lines.len() ==> match validate_line(#[trigger] lines[j], sep, strict) {
                Ok(rv) => exists|k: int|
                    0 <= k < line_records(lines, sep, strict).len() && line_records(
                        lines,
                        sep,
                        strict,
                    )[k] == rv,
                Err(_) => true,
            },
        forall|k: int|
            #![trigger line_records(lines, sep, strict)[k]]
            0 <= k < line_records(lines, sep, strict).len() ==> exists|j: int|
                0 <= j < lines.len() && validate_line(#[trigger] lines[j], sep, strict) == Ok::<
                    ReviewV,
                    crate::review::ErrorReview,
                >(line_records(lines, sep, strict)[k]),
    decreases lines.len(),
{
    if lines.len() > 0 {
        let prev = lines.drop_last();
        let pr = line_records(prev, sep, strict);
        let recs = line_records(lines, sep, strict);
        lemma_line_records_complete(prev, sep, strict);
        assert forall|j: int| 0 <= j < lines.len() implies match validate_line(
            #[trigger] lines[j],
            sep,
            strict,
        ) {
            Ok(rv) => exists|k: int| 0 <= k < recs.len() && recs[k] == rv,
            Err(_) => true,
        } by {
            if j < lines.len() - 1 {
                assert(prev[j] == lines[j]);
                match validate_line(lines[j], sep, strict) {
                    Ok(rv) => {
                        let k = choose|k: int| 0 <= k < pr.len() && pr[k] == rv;
                        assert(recs[k] == rv);
                    },
                    Err(_) => {},
                }
            } else {
                match validate_line(lines[j], sep, strict) {
                    Ok(rv) => {
                        assert(recs[recs.len() - 1] == rv);
                    },
                    Err(_) => {},
                }
            }
        }
        assert forall|k: int|
            #![trigger recs[k]]
            0 <= k < recs.len() implies exists|j: int|
            0 <= j < lines.len() && validate_line(#[trigger] lines[j], sep, strict) == Ok::<
                ReviewV,
                crate::review::ErrorReview,
            >(recs[k]) by {
            if k < pr.len() {
                assert(recs[k] == pr[k]);
                let j = choose|j: int|
                    0 <= j < prev.len() && validate_line(#[trigger] prev[j], sep, strict) == Ok::<
                        ReviewV,
                        crate::review::ErrorReview,
                    >(pr[k]);
                assert(validate_line(lines[j], sep, strict) == Ok::<
                    ReviewV,
                    crate::review::ErrorReview,
                >(recs[k]));
            } else {
                assert(validate_line(lines[lines.len() - 1], sep, strict) == Ok::<
                    ReviewV,
                    crate::review::ErrorReview,
                >(recs[k]));
            }
        }
    }
}

/// Against an index that covers every valid identifier, pass 2 rejects
/// exactly the lines that fail validation.
proof fn lemma_pass2_rejected_covered(
    lines: Seq<Seq<char>>,
    sep: Seq<char>,
    strict: bool,
    m: Map<Seq<char>, Timestamp>,
)
    requires
        forall|j: int|
            0 <= j < lines.len() ==> match validate_line(#[trigger] lines[j], sep, strict) {
                Ok(rv) => m.contains_key(rv.id),
                Err(_) => true,
            },
    ensures
        pass2_rejected(lines, sep, strict, m) == rejected_count(lines, sep, strict),
    decreases lines.len(),
{
    if lines.len() > 0 {
        let prev = lines.drop_last();
        assert forall|j: int| 0 <= j < prev.len() implies match validate_line(
            #[trigger] prev[j],
            sep,
            strict,
        ) {
            Ok(rv) => m.contains_key(rv.id),
            Err(_) => true,
        } by {
            assert(prev[j] == lines[j]);
        }
        lemma_pass2_rejected_covered(prev, sep, strict, m);
        assert(lines[lines.len() - 1] == lines.last());
    }
}

/// With the index built by pass 1 from the same lines, no valid line is an
/// orphan: pass 2 rejects exactly the lines that fail validation.
pub proof fn lemma_no_orphans(lines: Seq<Seq<char>>, sep: Seq<char>, strict: bool)
    ensures
        pass2_rejected(lines, sep, strict, index_of_recs(line_records(lines, sep, strict)))
            == rejected_count(lines, sep, strict),
{
    let recs = line_records(lines, sep, strict);
    let m = index_of_recs(recs);
    lemma_line_records_complete(lines, sep, strict);
    lemma_index_dom(recs);
    assert forall|j: int| 0 <= j < lines.len() implies match validate_line(
        #[trigger] lines[j],
        sep,
        strict,
    ) {
        Ok(rv) => m.contains_key(rv.id),
        Err(_) => true,
    } by {
        match validate_line(lines[j], sep, strict) {
            Ok(rv) => {
                let k = choose|k: int| 0 <= k < recs.len() && recs[k] == rv;
                assert(recs[k].id == rv.id);
                assert(has_id(recs, rv.id));
            },
            Err(_) => {},
        }
    }
    lemma_pass2_rejected_covered(lines, sep, strict, m);
}

/// Latest wins: an identifier reaches the output exactly when some valid
/// line carries it; it is emitted exactly once; and the emitted record is a
/// valid line's record carrying the maximum timestamp among all valid lines
/// with that identifier.
#[verifier::rlimit(60)]
pub proof fn lemma_latest_wins(lines: Seq<Seq<char>>, sep: Seq<char>, strict: bool, id: Seq<char>)
    ensures
        (exists|j: int| valid_line_with_id(lines, sep, strict, j, id)) <==> has_id(
            dedup_records(line_records(lines, sep, strict)),
            id,
        ),
        forall|k1: int, k2: int|
            #![trigger dedup_records(line_records(lines, sep, strict))[k1], dedup_records(line_records(lines, sep, strict))[k2]]
            0 <= k1 < dedup_records(line_records(lines, sep, strict)).len() && 0 <= k2
                < dedup_records(line_records(lines, sep, strict)).len() && dedup_records(
                line_records(lines, sep, strict),
            )[k1].id == id && dedup_records(line_records(lines, sep, strict))[k2].id == id ==> k1
                == k2,
        forall|k: int|
            #![trigger dedup_records(line_records(lines, sep, strict))[k]]
            0 <= k < dedup_records(line_records(lines, sep, strict)).len() && dedup_records(
                line_records(lines, sep, strict),
            )[k].id == id ==> {
                &&& dedup_records(line_records(lines, sep, strict))[k].date == index_of_recs(
                    line_records(lines, sep, strict),
                )[id]
                &&& exists|j: int|
                    0 <= j < lines.len() && validate_line(#[trigger] lines[j], sep, strict) == Ok::<
                        ReviewV,
                        crate::review::ErrorReview,
                    >(dedup_records(line_records(lines, sep, strict))[k])
                &&& forall|j: int|
                    #[trigger] valid_line_with_id(lines, sep, strict, j, id) ==> ts_le(
                        (validate_line(lines[j], sep, strict)->Ok_0).date,
                        dedup_records(line_records(lines, sep, strict))[k].date,
                    )
            },
{
    let recs = line_records(lines, sep, strict);
    let m = index_of_recs(recs);
    let out = dedup_records(recs);
    lemma_line_records_complete(lines, sep, strict);
    lemma_index_dom(recs);
    lemma_index_characterization(recs);
    lemma_emit_characterization(recs, m);
    if exists|j: int| valid_line_with_id(lines, sep, strict, j, id) {
        let j = choose|j: int| valid_line_with_id(lines, sep, strict, j, id);
        match validate_line(lines[j], sep, strict) {
            Ok(rv) => {
                let k = choose|k: int| 0 <= k < recs.len() && recs[k] == rv;
                assert(has_id(recs, id));
                assert(m.contains_key(id));
                let kk = choose|kk: int|
                    0 <= kk < recs.len() && (#[trigger] recs[kk]).id == id && recs[kk].date
                        == m[id];
                assert(has_id(out, recs[kk].id));
            },
            Err(_) => {
                assert(false);
            },
        }
    }
    if has_id(out, id) {
        let k = choose|k: int| 0 <= k < out.len() && (#[trigger] out[k]).id == id;
        assert(has_id(recs, id));
        let kk = choose|kk: int| 0 <= kk < recs.len() && (#[trigger] recs[kk]).id == id;
        let j = choose|j: int|
            0 <= j < lines.len() && validate_line(#[trigger] lines[j], sep, strict) == Ok::<
                ReviewV,
                crate::review::ErrorReview,
            >(recs[kk]);
        assert(valid_line_with_id(lines, sep, strict, j, id));
    }
    assert forall|k: int|
        0 <= k < out.len() && (#[trigger] out[k]).id == id implies {
        &&& out[k].date == m[id]
        &&& exists|j: int|
            0 <= j < lines.len() && validate_line(#[trigger] lines[j], sep, strict) == Ok::<
                ReviewV,
                crate::review::ErrorReview,
            >(out[k])
        &&& forall|j: int|
            #[trigger] valid_line_with_id(lines, sep, strict, j, id) ==> ts_le(
                (validate_line(lines[j], sep, strict)->Ok_0).date,
                out[k].date,
            )
    } by {
        let jj = choose|jj: int| 0 <= jj < recs.len() && recs[jj] == out[k];
        assert forall|j: int| #[trigger] valid_line_with_id(lines, sep, strict, j, id) implies
            ts_le((validate_line(lines[j], sep, strict)->Ok_0).date, out[k].date) by {
            let rv = validate_line(lines[j], sep, strict)->Ok_0;
            let kk = choose|kk: int| 0 <= kk < recs.len() && recs[kk] == rv;
            assert(ts_le(recs[kk].date, m[recs[kk].id]));
        }
    }
}

/// An identifier that appears only in invalid lines reaches neither the
/// index nor the output.
pub proof fn lemma_invalid_only_absent(
    lines: Seq<Seq<char>>,
    sep: Seq<char>,
    strict: bool,
    id: Seq<char>,
)
    requires
        forall|j: int| !valid_line_with_id(lines, sep, strict, j, id),
    ensures
        !index_of_recs(line_records(lines, sep, strict)).contains_key(id),
        !has_id(dedup_records(line_records(lines, sep, strict)), id),
{
    let recs = line_records(lines, sep, strict);
    lemma_line_records_complete(lines, sep, strict);
    lemma_index_dom(recs);
    lemma_emit_characterization(recs, index_of_recs(recs));
    if has_id(recs, id) {
        let k = choose|k: int| 0 <= k < recs.len() && (#[trigger] recs[k]).id == id;
        let j = choose|j: int|
            0 <= j < lines.len() && validate_line(#[trigger] lines[j], sep, strict) == Ok::<
                ReviewV,
                crate::review::ErrorReview,
            >(recs[k]);
        assert(valid_line_with_id(lines, sep, strict, j, id));
    }
}

/// Every valid record of `lines1` is the verdict of some line of `lines2`,
/// when the two inputs hold the same lines.
proof fn lemma_transfer_record(
    lines1: Seq<Seq<char>>,
    lines2: Seq<Seq<char>>,
    sep: Seq<char>,
    strict: bool,
    j1: int,
)
    requires
        lines1.to_multiset() == lines2.to_multiset(),
        0 <= j1 < lines1.len(),
    ensures
        exists|j2: int|
            0 <= j2 < lines2.len() && #[trigger] lines2[j2] == lines1[j1],
{
    broadcast use vstd::seq_lib::group_to_multiset_ensures;

    assert(lines1.contains(lines1[j1]));
    assert(lines1.to_multiset().count(lines1[j1]) > 0);
    assert(lines2.contains(lines1[j1]));
}

/// Order independence of the index: inputs holding the same lines, in any
/// order, build exactly the same identifier-to-maximum-timestamp map.
#[verifier::rlimit(60)]
pub proof fn lemma_index_order_independent(
    lines1: Seq<Seq<char>>,
    lines2: Seq<Seq<char>>,
    sep: Seq<char>,
    strict: bool,
)
    requires
        lines1.to_multiset() == lines2.to_multiset(),
    ensures
        index_of_recs(line_records(lines1, sep, strict)) == index_of_recs(
            line_records(lines2, sep, strict),
        ),
{
    let r1 = line_records(lines1, sep, strict);
    let r2 = line_records(lines2, sep, strict);
    let m1 = index_of_recs(r1);
    let m2 = index_of_recs(r2);
    lemma_line_records_complete(lines1, sep, strict);
    lemma_line_records_complete(lines2, sep, strict);
    lemma_index_characterization(r1);
    lemma_index_characterization(r2);
    assert forall|id: Seq<char>| #[trigger] m1.contains_key(id) implies m2.contains_key(id)
        && ts_le(m1[id], m2[id]) by {
        let k = choose|k: int|
            0 <= k < r1.len() && (#[trigger] r1[k]).id == id && r1[k].date == m1[id];
        let j1 = choose|j1: int|
            0 <= j1 < lines1.len() && validate_line(#[trigger] lines1[j1], sep, strict) == Ok::<
                ReviewV,
                crate::review::ErrorReview,
            >(r1[k]);
        lemma_transfer_record(lines1, lines2, sep, strict, j1);
        let j2 = choose|j2: int| 0 <= j2 < lines2.len() && #[trigger] lines2[j2] == lines1[j1];
        let k2 = choose|k2: int| 0 <= k2 < r2.len() && r2[k2] == r1[k];
        assert(has_id(r2, id));
        assert(ts_le(r2[k2].date, m2[r2[k2].id]));
    }
    assert forall|id: Seq<char>| #[trigger] m2.contains_key(id) implies m1.contains_key(id)
        && ts_le(m2[id], m1[id]) by {
        let k = choose|k: int|
            0 <= k < r2.len() && (#[trigger] r2[k]).id == id && r2[k].date == m2[id];
        let j2 = choose|j2: int|
            0 <= j2 < lines2.len() && validate_line(#[trigger] lines2[j2], sep, strict) == Ok::<
                ReviewV,
                crate::review::ErrorReview,
            >(r2[k]);
        lemma_transfer_record(lines2, lines1, sep, strict, j2);
        let j1 = choose|j1: int| 0 <= j1 < lines1.len() && #[trigger] lines1[j1] == lines2[j2];
        let k1 = choose|k1: int| 0 <= k1 < r1.len() && r1[k1] == r2[k];
        assert(has_id(r1, id));
        assert(ts_le(r1[k1].date, m1[r1[k1].id]));
    }
    assert(m1.dom() =~= m2.dom());
    assert forall|id: Seq<char>| #[trigger] m1.contains_key(id) implies m1[id] == m2[id] by {
        assert(ts_le(m1[id], m2[id]) && ts_le(m2[id], m1[id]));
    }
    assert(m1 =~= m2);
}

/// Deduplicating a set of records whose identifiers are already unique and
/// whose timestamps are the indexed maxima changes nothing.
proof fn lemma_emit_all(recs: Seq<ReviewV>, m: Map<Seq<char>, Timestamp>)
    requires
        forall|k1: int, k2: int|
            0 <= k1 < k2 < recs.len() ==> (#[trigger] recs[k1]).id != (#[trigger] recs[k2]).id,
        forall|k: int|
            0 <= k < recs.len() ==> m.contains_key((#[trigger] recs[k]).id) && m[recs[k].id]
                == recs[k].date,
    ensures
        emit_of(recs, m) == recs,
    decreases recs.len(),
{
    if recs.len() > 0 {
        let prev = recs.drop_last();
        let r = recs.last();
        assert forall|k: int| 0 <= k < prev.len() implies m.contains_key((#[trigger] prev[k]).id)
            && m[prev[k].id] == prev[k].date by {
            assert(prev[k] == recs[k]);
        }
        lemma_emit_all(prev, m);
        assert(recs[recs.len() - 1] == r);
        if has_id(prev, r.id) {
            let k = choose|k: int| 0 <= k < prev.len() && (#[trigger] prev[k]).id == r.id;
            assert(recs[k].id == recs[recs.len() - 1].id);
            assert(false);
        }
        assert(emit_of(recs, m) == prev.push(r));
        assert(prev.push(r) =~= recs);
    } else {
        assert(emit_of(recs, m) =~= recs);
    }
}

/// Idempotence of deduplication: running the dedup core on its own output
/// leaves the output unchanged, since identifiers are already unique.
pub proof fn lemma_dedup_idempotent(recs: Seq<ReviewV>)
    ensures
        dedup_records(dedup_records(recs)) == dedup_records(recs),
{
    let out = dedup_records(recs);
    let m = index_of_recs(recs);
    let m2 = index_of_recs(out);
    lemma_emit_characterization(recs, m);
    lemma_index_dom(out);
    lemma_index_characterization(out);
    assert(out == emit_of(recs, m));
    assert forall|k: int| 0 <= k < out.len() implies m2.contains_key((#[trigger] out[k]).id)
        && m2[out[k].id] == out[k].date by {
        assert(has_id(out, out[k].id));
        assert(index_of_recs(out).contains_key(out[k].id));
        let kk = choose|kk: int|
            0 <= kk < out.len() && (#[trigger] out[kk]).id == out[k].id && out[kk].date
                == index_of_recs(out)[out[k].id];
        if kk < k {
            assert(emit_of(recs, m)[kk].id != emit_of(recs, m)[k].id);
        } else if k < kk {
            assert(emit_of(recs, m)[k].id != emit_of(recs, m)[kk].id);
        }
        assert(kk == k);
    }
    lemma_emit_all(out, m2);
}


/// Inputs holding the same lines, where equal-identifier equal-timestamp
/// verdicts agree, produce pairwise-agreeing valid records.
#[verifier::rlimit(60)]
proof fn lemma_record_tie_transfer(
    lines1: Seq<Seq<char>>,
    lines2: Seq<Seq<char>>,
    sep: Seq<char>,
    strict: bool,
)
    requires
        lines1.to_multiset() == lines2.to_multiset(),
        forall|a: int, b: int|
            0 <= a < lines1.len() && 0 <= b < lines1.len() ==> match (
                validate_line(#[trigger] lines1[a], sep, strict),
                validate_line(#[trigger] lines1[b], sep, strict),
            ) {
                (Ok(x), Ok(y)) => x.id == y.id && x.date == y.date ==> x == y,
                _ => true,
            },
    ensures
        forall|a: int, b: int|
            #![trigger line_records(lines1, sep, strict)[a], line_records(lines2, sep, strict)[b]]
            0 <= a < line_records(lines1, sep, strict).len() && 0 <= b < line_records(
                lines2,
                sep,
                strict,
            ).len() && line_records(lines1, sep, strict)[a].id == line_records(
                lines2,
                sep,
                strict,
            )[b].id && line_records(lines1, sep, strict)[a].date == line_records(
                lines2,
                sep,
                strict,
            )[b].date ==> line_records(lines1, sep, strict)[a] == line_records(
                lines2,
                sep,
                strict,
            )[b],
{
    let r1 = line_records(lines1, sep, strict);
    let r2 = line_records(lines2, sep, strict);
    lemma_line_records_complete(lines1, sep, strict);
    lemma_line_records_complete(lines2, sep, strict);
    assert forall|a: int, b: int|
        0 <= a < r1.len() && 0 <= b < r2.len() && (#[trigger] r1[a]).id == (#[trigger] r2[b]).id
            && r1[a].date == r2[b].date implies r1[a] == r2[b] by {
        let j1 = choose|j1: int|
            0 <= j1 < lines1.len() && validate_line(#[trigger] lines1[j1], sep, strict) == Ok::<
                ReviewV,
                crate::review::ErrorReview,
            >(r1[a]);
        let j2 = choose|j2: int|
            0 <= j2 < lines2.len() && validate_line(#[trigger] lines2[j2], sep, strict) == Ok::<
                ReviewV,
                crate::review::ErrorReview,
            >(r2[b]);
        lemma_transfer_record(lines2, lines1, sep, strict, j2);
        let jj = choose|jj: int| 0 <= jj < lines1.len() && #[trigger] lines1[jj] == lines2[j2];
        assert(validate_line(lines1[jj], sep, strict) == Ok::<
            ReviewV,
            crate::review::ErrorReview,
        >(r2[b]));
    }
}

/// Records with agreeing ties emit, against one index, at most one record
/// content per identifier, whichever record sequence is used.
proof fn lemma_emit_unique_content(
    recs1: Seq<ReviewV>,
    recs2: Seq<ReviewV>,
    m: Map<Seq<char>, Timestamp>,
    id: Seq<char>,
)
    requires
        forall|a: int, b: int|
            0 <= a < recs1.len() && 0 <= b < recs2.len() && (#[trigger] recs1[a]).id == (
            #[trigger] recs2[b]).id && recs1[a].date == recs2[b].date ==> recs1[a] == recs2[b],
    ensures
        forall|k1: int, k2: int|
            0 <= k1 < emit_of(recs1, m).len() && 0 <= k2 < emit_of(recs2, m).len() && (
            #[trigger] emit_of(recs1, m)[k1]).id == id && (#[trigger] emit_of(recs2, m)[k2]).id
                == id ==> emit_of(recs1, m)[k1] == emit_of(recs2, m)[k2],
{
    let out1 = emit_of(recs1, m);
    let out2 = emit_of(recs2, m);
    lemma_emit_characterization(recs1, m);
    lemma_emit_characterization(recs2, m);
    assert forall|k1: int, k2: int|
        0 <= k1 < out1.len() && 0 <= k2 < out2.len() && (#[trigger] out1[k1]).id == id && (
    #[trigger] out2[k2]).id == id implies out1[k1] == out2[k2] by {
        let a = choose|a: int| 0 <= a < recs1.len() && recs1[a] == out1[k1];
        let b = choose|b: int| 0 <= b < recs2.len() && recs2[b] == out2[k2];
        assert(out1[k1].date == m[id] && out2[k2].date == m[id]);
        assert(recs1[a].id == recs2[b].id && recs1[a].date == recs2[b].date);
    }
}

/// With ties carrying identical records, the emitted record of each
/// identifier does not depend on the order of the input lines.
pub proof fn lemma_emitted_content_determined(
    lines1: Seq<Seq<char>>,
    lines2: Seq<Seq<char>>,
    sep: Seq<char>,
    strict: bool,
    id: Seq<char>,
)
    requires
        lines1.to_multiset() == lines2.to_multiset(),
        forall|a: int, b: int|
            0 <= a < lines1.len() && 0 <= b < lines1.len() ==> match (
                validate_line(#[trigger] lines1[a], sep, strict),
                validate_line(#[trigger] lines1[b], sep, strict),
            ) {
                (Ok(x), Ok(y)) => x.id == y.id && x.date == y.date ==> x == y,
                _ => true,
            },
    ensures
        forall|k1: int, k2: int|
            #![trigger dedup_records(line_records(lines1, sep, strict))[k1], dedup_records(line_records(lines2, sep, strict))[k2]]
            0 <= k1 < dedup_records(line_records(lines1, sep, strict)).len() && 0 <= k2
                < dedup_records(line_records(lines2, sep, strict)).len() && dedup_records(
                line_records(lines1, sep, strict),
            )[k1].id == id && dedup_records(line_records(lines2, sep, strict))[k2].id == id
                ==> dedup_records(line_records(lines1, sep, strict))[k1] == dedup_records(
                line_records(lines2, sep, strict),
            )[k2],
{
    let r1 = line_records(lines1, sep, strict);
    let r2 = line_records(lines2, sep, strict);
    lemma_index_order_independent(lines1, lines2, sep, strict);
    lemma_record_tie_transfer(lines1, lines2, sep, strict);
    lemma_emit_unique_content(r1, r2, index_of_recs(r1), id);
    assert(dedup_records(r1) == emit_of(r1, index_of_recs(r1)));
    assert(dedup_records(r2) == emit_of(r2, index_of_recs(r1)));
}

} // verus!
