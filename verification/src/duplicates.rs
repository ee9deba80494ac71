use vstd::prelude::*;
use crate::review::Review;
use crate::review::ReviewV;
use crate::review::validate_line;
use crate::ts::Timestamp;
use crate::ts::ts_lt;
use crate::ts::ts_le;
use crate::validate::Validator;

verus! {

/// One identifier with the latest timestamp seen for it so far.
struct IndexEntry {
    id: String,
    ts: Timestamp,
}

/// The mapping an entry sequence holds: later entries shadow earlier ones
/// with the same identifier (well-formed indexes store each at most once).
spec fn entries_map(s: Seq<IndexEntry>) -> Map<Seq<char>, Timestamp>
    decreases s.len(),
{
    if s.len() == 0 {
        Map::empty()
    } else {
        entries_map(s.drop_last()).insert(s.last().id@, s.last().ts)
    }
}

/// Each identifier is stored at most once.
spec fn entries_wf(s: Seq<IndexEntry>) -> bool {
    forall|i: int, j: int| 0 <= i < j < s.len() ==> s[i].id@ != s[j].id@
}

/// The deduplication index of pass 1: each identifier seen in a valid
/// line, mapped to the latest timestamp among its valid occurrences.
pub struct DedupIndex {
    entries: Vec<IndexEntry>,
}

impl View for DedupIndex {
    type V = Map<Seq<char>, Timestamp>;

    closed spec fn view(&self) -> Map<Seq<char>, Timestamp> {
        entries_map(self.entries@)
    }
}

/// How one observation changes the index (§ pass 1): a new identifier is
/// inserted; a known one is overwritten only by a strictly later timestamp.
pub open spec fn observe_map(
    m: Map<Seq<char>, Timestamp>,
    id: Seq<char>,
    ts: Timestamp,
) -> Map<Seq<char>, Timestamp> {
    if !m.contains_key(id) {
        m.insert(id, ts)
    } else if ts_lt(m[id], ts) {
        m.insert(id, ts)
    } else {
        m
    }
}

proof fn lemma_entries_map_props(s: Seq<IndexEntry>)
    ensures
        forall|k: Seq<char>|
            entries_map(s).contains_key(k) <==> exists|i: int|
                0 <= i < s.len() && (#[trigger] s[i]).id@ == k,
        entries_wf(s) ==> forall|i: int|
            0 <= i < s.len() ==> entries_map(s)[(#[trigger] s[i]).id@] == s[i].ts,
    decreases s.len(),
{
    if s.len() > 0 {
        lemma_entries_map_props(s.drop_last());
        assert(entries_map(s) == entries_map(s.drop_last()).insert(s.last().id@, s.last().ts));
        assert forall|k: Seq<char>| entries_map(s).contains_key(k) implies exists|i: int|
            0 <= i < s.len() && (#[trigger] s[i]).id@ == k by {
            if k == s.last().id@ {
                assert(s[s.len() - 1].id@ == k);
            } else {
                let i = choose|i: int| 0 <= i < s.drop_last().len() && (#[trigger] s.drop_last()[i]).id@ == k;
                assert(s[i].id@ == k);
            }
        }
        assert forall|i: int| 0 <= i < s.len() && exists|j: int|
            0 <= j < s.len() && (#[trigger] s[j]).id@ == s[i].id@ implies entries_map(
            s,
        ).contains_key(s[i].id@) by {
            if s[i].id@ != s.last().id@ {
                assert(s.drop_last()[i].id@ == s[i].id@);
            }
        }
        assert(forall|i: int|
            0 <= i < s.len() ==> entries_map(s).contains_key((#[trigger] s[i]).id@));
        if entries_wf(s) {
            assert(entries_wf(s.drop_last()));
            assert forall|i: int| 0 <= i < s.len() implies entries_map(s)[(#[trigger] s[i]).id@]
                == s[i].ts by {
                if i == s.len() - 1 {
                } else {
                    assert(s[i].id@ != s.last().id@);
                    assert(s.drop_last()[i] == s[i]);
                }
            }
        }
    }
}

impl DedupIndex {
    /// Each identifier is stored at most once.
    pub closed spec fn wf(&self) -> bool {
        entries_wf(self.entries@)
    }

    /// An empty index.
    pub fn new() -> (out: DedupIndex)
        ensures
            out@ == Map::<Seq<char>, Timestamp>::empty(),
            out.wf(),
    {
        DedupIndex { entries: Vec::new() }
    }

    /// The stored timestamp of `id`, if any.
    pub fn get(&self, id: &String) -> (r: Option<Timestamp>)
        requires
            self.wf(),
        ensures
            match r {
                Some(t) => self@.contains_key(id@) && self@[id@] == t,
                None => !self@.contains_key(id@),
            },
    {
        proof {
            lemma_entries_map_props(self.entries@);
        }
        let n = self.entries.len();
        let mut i: usize = 0;
        while i < n
            invariant
                i <= n,
                n == self.entries@.len(),
                self.wf(),
                forall|j: int| 0 <= j < i ==> (#[trigger] self.entries@[j]).id@ != id@,
            decreases n - i,
        {
            if self.entries[i].id == *id {
                proof {
                    lemma_entries_map_props(self.entries@);
                    assert(self.entries@[i as int].id@ == id@);
                    assert(self@.contains_key(id@));
                    assert(self@[self.entries@[i as int].id@] == self.entries@[i as int].ts);
                }
                return Some(self.entries[i].ts);
            }
            i += 1;
        }
        proof {
            lemma_entries_map_props(self.entries@);
        }
        None
    }

    /// Record one valid observation (§ pass 1, steps 2 and 3): insert a new
    /// identifier, overwrite a known one only on a strictly greater
    /// timestamp. Returns whether the identifier had been seen before.
    pub fn observe(&mut self, id: &String, ts: Timestamp) -> (repeated: bool)
        requires
            old(self).wf(),
        ensures
            final(self).wf(),
            repeated == old(self)@.contains_key(id@),
            final(self)@ == observe_map(old(self)@, id@, ts),
    {
        proof {
            lemma_entries_map_props(self.entries@);
        }
        let n = self.entries.len();
        let mut i: usize = 0;
        while i < n
            invariant
                i <= n,
                n == self.entries@.len(),
                *self == *old(self),
                old(self).wf(),
                forall|j: int| 0 <= j < i ==> (#[trigger] self.entries@[j]).id@ != id@,
            decreases n - i,
        {
            if self.entries[i].id == *id {
                proof {
                    lemma_entries_map_props(self.entries@);
                    assert(self.entries@[i as int].id@ == id@);
                    assert(self@.contains_key(id@));
                    assert(self@[id@] == self.entries@[i as int].ts);
                }
                if self.entries[i].ts.lt(&ts) {
                    let ghost old_entries = self.entries@;
                    self.entries[i] = IndexEntry { id: id.clone(), ts };
                    proof {
                        assert(entries_wf(old_entries));
                        assert(self.entries@ =~= old_entries.update(
                            i as int,
                            self.entries@[i as int],
                        ));
                        lemma_entries_map_update(old_entries, i as int, self.entries@[i as int]);
                    }
                }
                return true;
            }
            i += 1;
        }
        let ghost old_entries = self.entries@;
        self.entries.push(IndexEntry { id: id.clone(), ts });
        proof {
            assert(self.entries@.drop_last() =~= old_entries);
            assert forall|a: int, b: int| 0 <= a < b < self.entries@.len() implies self.entries@[a].id@
                != self.entries@[b].id@ by {
                if b == self.entries@.len() - 1 {
                    assert(self.entries@[a] == old_entries[a]);
                } else {
                    assert(self.entries@[a] == old_entries[a]);
                    assert(self.entries@[b] == old_entries[b]);
                }
            }
            lemma_entries_map_props(old_entries);
        }
        false
    }
}

/// Overwriting the entry of an already-stored identifier updates exactly
/// that identifier's mapping.
proof fn lemma_entries_map_update(s: Seq<IndexEntry>, i: int, e: IndexEntry)
    requires
        0 <= i < s.len(),
        e.id@ == s[i].id@,
        entries_wf(s),
    ensures
        entries_map(s.update(i, e)) == entries_map(s).insert(e.id@, e.ts),
        entries_wf(s.update(i, e)),
    decreases s.len(),
{
    let upd = s.update(i, e);
    assert forall|a: int, b: int| 0 <= a < b < upd.len() implies upd[a].id@ != upd[b].id@ by {
        assert(upd[a].id@ == s[a].id@);
        assert(upd[b].id@ == s[b].id@);
    }
    if i == s.len() - 1 {
        assert(upd.drop_last() =~= s.drop_last());
        assert(entries_map(upd) == entries_map(s.drop_last()).insert(e.id@, e.ts));
        assert(entries_map(s.drop_last()).insert(e.id@, e.ts) =~= entries_map(s.drop_last()).insert(
            s.last().id@,
            s.last().ts,
        ).insert(e.id@, e.ts));
    } else {
        assert(upd.drop_last() =~= s.drop_last().update(i, e));
        assert(entries_wf(s.drop_last()));
        assert(s.drop_last()[i] == s[i]);
        lemma_entries_map_update(s.drop_last(), i, e);
        assert(upd.last() == s.last());
        assert(e.id@ != s.last().id@);
        assert(entries_map(s.drop_last()).insert(e.id@, e.ts).insert(s.last().id@, s.last().ts)
            =~= entries_map(s.drop_last()).insert(s.last().id@, s.last().ts).insert(e.id@, e.ts));
    }
}

/// Some record in `recs` carries the identifier `id`.
pub open spec fn has_id(recs: Seq<ReviewV>, id: Seq<char>) -> bool {
    exists|i: int| 0 <= i < recs.len() && (#[trigger] recs[i]).id == id
}

/// The records of the valid lines, in input order.
pub open spec fn line_records(lines: Seq<Seq<char>>, sep: Seq<char>, strict: bool) -> Seq<ReviewV>
    decreases lines.len(),
{
    if lines.len() == 0 {
        Seq::empty()
    } else {
        let prev = line_records(lines.drop_last(), sep, strict);
        match validate_line(lines.last(), sep, strict) {
            Ok(rv) => prev.push(rv),
            Err(_) => prev,
        }
    }
}

/// The dedup index over a record sequence: the fold of `observe_map`.
pub open spec fn index_of_recs(recs: Seq<ReviewV>) -> Map<Seq<char>, Timestamp>
    decreases recs.len(),
{
    if recs.len() == 0 {
        Map::empty()
    } else {
        observe_map(
            index_of_recs(recs.drop_last()),
            recs.last().id,
            recs.last().date,
        )
    }
}

/// How many lines fail validation.
pub open spec fn rejected_count(lines: Seq<Seq<char>>, sep: Seq<char>, strict: bool) -> nat
    decreases lines.len(),
{
    if lines.len() == 0 {
        0
    } else {
        rejected_count(lines.drop_last(), sep, strict) + match validate_line(
            lines.last(),
            sep,
            strict,
        ) {
            Ok(_) => 0nat,
            Err(_) => 1nat,
        }
    }
}

/// How many valid lines repeat an identifier already seen in a valid line.
pub open spec fn repeated_count(lines: Seq<Seq<char>>, sep: Seq<char>, strict: bool) -> nat
    decreases lines.len(),
{
    if lines.len() == 0 {
        0
    } else {
        repeated_count(lines.drop_last(), sep, strict) + match validate_line(
            lines.last(),
            sep,
            strict,
        ) {
            Ok(rv) => if has_id(line_records(lines.drop_last(), sep, strict), rv.id) {
                1nat
            } else {
                0nat
            },
            Err(_) => 0nat,
        }
    }
}

/// The lines of a run: the input minus the configured header rows.
pub open spec fn body_lines(lines: Seq<Seq<char>>, skip: int) -> Seq<Seq<char>> {
    if 0 <= skip <= lines.len() {
        lines.skip(skip)
    } else if skip < 0 {
        lines
    } else {
        Seq::empty()
    }
}

/// The index's domain is exactly the identifiers of the records.
pub proof fn lemma_index_dom(recs: Seq<ReviewV>)
    ensures
        forall|id: Seq<char>| #[trigger] index_of_recs(recs).contains_key(id) <==> has_id(recs, id),
    decreases recs.len(),
{
    if recs.len() > 0 {
        lemma_index_dom(recs.drop_last());
        assert(index_of_recs(recs) == observe_map(
            index_of_recs(recs.drop_last()),
            recs.last().id,
            recs.last().date,
        ));
        assert forall|id: Seq<char>| #[trigger] index_of_recs(recs).contains_key(id) implies has_id(
            recs,
            id,
        ) by {
            if id == recs.last().id {
                assert(recs[recs.len() - 1].id == id);
            } else {
                assert(index_of_recs(recs.drop_last()).contains_key(id));
                let i = choose|i: int|
                    0 <= i < recs.drop_last().len() && (#[trigger] recs.drop_last()[i]).id == id;
                assert(recs[i].id == id);
            }
        }
        assert forall|id: Seq<char>| has_id(recs, id) implies #[trigger] index_of_recs(
            recs,
        ).contains_key(id) by {
            let i = choose|i: int| 0 <= i < recs.len() && (#[trigger] recs[i]).id == id;
            if i == recs.len() - 1 {
            } else {
                assert(recs.drop_last()[i].id == id);
                assert(has_id(recs.drop_last(), id));
            }
        }
    }
}

/// What the dedup index holds: exactly the identifiers of the valid
/// records, each mapped to the maximum timestamp among its records; the
/// maximum is attained by some record.
pub proof fn lemma_index_characterization(recs: Seq<ReviewV>)
    ensures
        forall|id: Seq<char>| #[trigger] index_of_recs(recs).contains_key(id) <==> has_id(recs, id),
        forall|k: int|
            0 <= k < recs.len() ==> ts_le(
                (#[trigger] recs[k]).date,
                index_of_recs(recs)[recs[k].id],
            ),
        forall|id: Seq<char>| #[trigger]
            index_of_recs(recs).contains_key(id) ==> exists|k: int|
                0 <= k < recs.len() && (#[trigger] recs[k]).id == id && recs[k].date
                    == index_of_recs(recs)[id],
    decreases recs.len(),
{
    lemma_index_dom(recs);
    if recs.len() > 0 {
        let prev = recs.drop_last();
        let m = index_of_recs(prev);
        let m2 = index_of_recs(recs);
        let last = recs.last();
        lemma_index_characterization(prev);
        lemma_index_dom(prev);
        assert(m2 == observe_map(m, last.id, last.date));
        assert forall|k: int| 0 <= k < recs.len() implies ts_le(
            (#[trigger] recs[k]).date,
            m2[recs[k].id],
        ) by {
            if k < recs.len() - 1 {
                assert(prev[k] == recs[k]);
                assert(ts_le(recs[k].date, m[recs[k].id]));
                if recs[k].id == last.id {
                    assert(m.contains_key(last.id));
                    if ts_lt(m[last.id], last.date) {
                        assert(m2[recs[k].id] == last.date);
                    } else {
                        assert(m2[recs[k].id] == m[recs[k].id]);
                    }
                } else {
                    assert(m2[recs[k].id] == m[recs[k].id]);
                }
            } else {
                if !m.contains_key(last.id) {
                    assert(m2[last.id] == last.date);
                } else if ts_lt(m[last.id], last.date) {
                    assert(m2[last.id] == last.date);
                } else {
                    assert(m2[last.id] == m[last.id]);
                }
            }
        }
        assert forall|id: Seq<char>| #[trigger] m2.contains_key(id) implies exists|k: int|
            0 <= k < recs.len() && (#[trigger] recs[k]).id == id && recs[k].date == m2[id] by {
            if id == last.id {
                if !m.contains_key(last.id) || ts_lt(m[last.id], last.date) {
                    assert(recs[recs.len() - 1].id == id && recs[recs.len() - 1].date == m2[id]);
                } else {
                    let k = choose|k: int|
                        0 <= k < prev.len() && (#[trigger] prev[k]).id == id && prev[k].date
                            == m[id];
                    assert(recs[k].id == id && recs[k].date == m2[id]);
                }
            } else {
                assert(m.contains_key(id));
                let k = choose|k: int|
                    0 <= k < prev.len() && (#[trigger] prev[k]).id == id && prev[k].date == m[id];
                assert(recs[k].id == id && recs[k].date == m2[id]);
            }
        }
    }
}

/// Pass 1 over the body lines: the index and the two counters of § 4.3.
pub struct Pass1 {
    pub index: DedupIndex,
    pub rejected: usize,
    pub repeated: usize,
}

/// Pass 1: stream every body line once, validate it, and fold each valid
/// record into the index; count rejected lines and repeated identifiers.
pub fn get_uuids_set(validator: &Validator, lines: &Vec<String>, sep: &str, skip: usize) -> (out:
    Pass1)
    ensures
        out.index.wf(),
        out.index@ == index_of_recs(
            line_records(body_lines(lines.deep_view(), skip as int), sep@, validator.strict()),
        ),
        out.rejected == rejected_count(
            body_lines(lines.deep_view(), skip as int),
            sep@,
            validator.strict(),
        ),
        out.repeated == repeated_count(
            body_lines(lines.deep_view(), skip as int),
            sep@,
            validator.strict(),
        ),
{
    let ghost all = lines.deep_view();
    let ghost strict = validator.strict();
    let n = lines.len();
    let mut index = DedupIndex::new();
    let mut rejected: usize = 0;
    let mut repeated: usize = 0;
    let mut i: usize = if skip <= n {
        skip
    } else {
        n
    };
    proof {
        assert(all.subrange(i as int, i as int) =~= Seq::empty());
        if skip <= n {
            assert(body_lines(all, skip as int) == all.skip(skip as int));
        }
    }
    while i < n
        invariant
            skip <= i || i == n,
            i <= n,
            n == all.len(),
            all == lines.deep_view(),
            strict == validator.strict(),
            index.wf(),
            i as int - (if skip <= n {
                skip as int
            } else {
                n as int
            }) >= 0,
            index@ == index_of_recs(
                line_records(
                    all.subrange(
                        if skip <= n {
                            skip as int
                        } else {
                            n as int
                        },
                        i as int,
                    ),
                    sep@,
                    strict,
                ),
            ),
            rejected <= i,
            repeated <= i,
            rejected == rejected_count(
                all.subrange(
                    if skip <= n {
                        skip as int
                    } else {
                        n as int
                    },
                    i as int,
                ),
                sep@,
                strict,
            ),
            repeated == repeated_count(
                all.subrange(
                    if skip <= n {
                        skip as int
                    } else {
                        n as int
                    },
                    i as int,
                ),
                sep@,
                strict,
            ),
        decreases n - i,
    {
        let ghost start: int = if skip <= n {
            skip as int
        } else {
            n as int
        };
        let ghost pre = all.subrange(start, i as int);
        let ghost cur = all.subrange(start, i as int + 1);
        proof {
            assert(cur.drop_last() =~= pre);
            assert(cur.last() == all[i as int]);
            assert(all[i as int] == lines@[i as int]@);
        }
        let ghost prev_recs = line_records(pre, sep@, strict);
        match Review::new(validator, lines[i].as_str(), sep) {
            Ok(review) => {
                proof {
                    lemma_index_dom(prev_recs);
                    assert(validate_line(cur.last(), sep@, strict) is Ok);
                    let rv = validate_line(cur.last(), sep@, strict)->Ok_0;
                    assert(review@ == rv);
                    assert(line_records(cur, sep@, strict) == prev_recs.push(rv));
                    assert(prev_recs.push(rv).drop_last() =~= prev_recs);
                    assert(prev_recs.push(rv).last() == rv);
                    assert(index_of_recs(prev_recs.push(rv)) == observe_map(
                        index_of_recs(prev_recs),
                        rv.id,
                        rv.date,
                    ));
                    assert(rejected_count(cur, sep@, strict) == rejected_count(pre, sep@, strict));
                }
                let was_repeated = index.observe(&review.id, review.date);
                if was_repeated {
                    repeated += 1;
                }
            },
            Err(_) => {
                proof {
                    assert(line_records(cur, sep@, strict) == prev_recs);
                    assert(rejected_count(cur, sep@, strict) == rejected_count(pre, sep@, strict)
                        + 1);
                    assert(repeated_count(cur, sep@, strict) == repeated_count(pre, sep@, strict));
                }
                rejected += 1;
            },
        }
        i += 1;
    }
    proof {
        if skip <= n {
            assert(all.subrange(skip as int, n as int) =~= body_lines(all, skip as int));
        } else {
            assert(all.subrange(n as int, n as int) =~= body_lines(all, skip as int));
        }
    }
    Pass1 { index, rejected, repeated }
}

} // verus!
