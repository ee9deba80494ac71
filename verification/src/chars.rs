use vstd::prelude::*;
use vstd::string::StrSliceExecFns;

verus! {

/// The characters of `s` with every double-quote character removed.
pub open spec fn strip_quotes(s: Seq<char>) -> Seq<char> {
    s.filter(|c: char| c != '"')
}

/// The separator `sep` occurs in `s` at position `i`.
pub open spec fn matches_at(s: Seq<char>, sep: Seq<char>, i: int) -> bool {
    0 <= i && i + sep.len() <= s.len() && s.subrange(i, i + sep.len()) == sep
}

/// Scan of `s` from position `i`, the current field having begun at `start`:
/// at each leftmost occurrence of `sep` the current field is cut, and the
/// scan resumes after the separator.
pub open spec fn split_rec(s: Seq<char>, sep: Seq<char>, start: int, i: int) -> Seq<Seq<char>>
    decreases s.len() - i,
    when 0 <= start <= i <= s.len() && 0 < sep.len()
{
    if i + sep.len() > s.len() {
        seq![s.subrange(start, s.len() as int)]
    } else if s.subrange(i, i + sep.len()) == sep {
        seq![s.subrange(start, i)] + split_rec(s, sep, i + sep.len(), i + sep.len())
    } else {
        split_rec(s, sep, start, i + 1)
    }
}

/// The fields of `s` split on separator `sep`: leftmost, non-overlapping
/// occurrences cut the line, as `str::split` does for a non-empty separator.
/// An empty separator yields the whole line as the single field.
pub open spec fn split_chars(s: Seq<char>, sep: Seq<char>) -> Seq<Seq<char>> {
    if sep.len() == 0 {
        seq![s]
    } else {
        split_rec(s, sep, 0, 0)
    }
}

/// The characters of `s`, in order, as a vector.
pub fn str_to_chars(s: &str) -> (out: Vec<char>)
    ensures
        out@ == s@,
{
    let n = s.unicode_len();
    let mut out: Vec<char> = Vec::new();
    let mut i: usize = 0;
    while i < n
        invariant
            i <= n,
            n == s@.len(),
            out@ == s@.subrange(0, i as int),
        decreases n - i,
    {
        out.push(s.get_char(i));
        proof {
            assert(out@ =~= s@.subrange(0, i + 1 as int));
        }
        i += 1;
    }
    proof {
        assert(out@ =~= s@);
    }
    out
}

/// Relies on `core::iter::Iterator::collect` for `String`: collecting
/// characters yields the string made of exactly those characters, in order.
#[verifier::external_body]
pub fn chars_to_string(v: &Vec<char>) -> (s: String)
    ensures
        s@ == v@,
{
    v.iter().collect()
}

/// A copy of `s` with every double-quote character removed.
pub fn strip_quotes_exec(s: &Vec<char>) -> (out: Vec<char>)
    ensures
        out@ == strip_quotes(s@),
{
    let mut out: Vec<char> = Vec::new();
    let mut i: usize = 0;
    while i < s.len()
        invariant
            i <= s@.len(),
            out@ == strip_quotes(s@.subrange(0, i as int)),
        decreases s@.len() - i,
    {
        let c = s[i];
        let ghost cur = s@.subrange(0, i + 1 as int);
        proof {
            reveal_with_fuel(Seq::<_>::filter, 2);
            assert(cur.drop_last() =~= s@.subrange(0, i as int));
            assert(cur.last() == s@[i as int]);
        }
        if c != '"' {
            out.push(c);
            proof {
                assert(strip_quotes(cur) == strip_quotes(cur.drop_last()).push(cur.last())) by {
                    reveal_with_fuel(Seq::<_>::filter, 2);
                }
            }
        } else {
            proof {
                assert(strip_quotes(cur) == strip_quotes(cur.drop_last())) by {
                    reveal_with_fuel(Seq::<_>::filter, 2);
                }
            }
        }
        i += 1;
    }
    proof {
        assert(s@.subrange(0, s@.len() as int) =~= s@);
    }
    out
}

/// The subrange `s[from..to]` as a fresh vector.
pub fn subvec(s: &Vec<char>, from: usize, to: usize) -> (out: Vec<char>)
    requires
        from <= to <= s@.len(),
    ensures
        out@ == s@.subrange(from as int, to as int),
{
    let mut out: Vec<char> = Vec::new();
    let mut i: usize = from;
    while i < to
        invariant
            from <= i <= to <= s@.len(),
            out@ == s@.subrange(from as int, i as int),
        decreases to - i,
    {
        out.push(s[i]);
        proof {
            assert(out@ =~= s@.subrange(from as int, i + 1 as int));
        }
        i += 1;
    }
    out
}

/// Whether `sep` occurs in `s` at position `i`.
fn matches_at_exec(s: &Vec<char>, sep: &Vec<char>, i: usize) -> (r: bool)
    requires
        i + sep@.len() <= s@.len(),
    ensures
        r == matches_at(s@, sep@, i as int),
{
    let sn = s.len();
    let sepn = sep.len();
    let mut j: usize = 0;
    while j < sepn
        invariant
            j <= sepn,
            sn == s@.len(),
            sepn == sep@.len(),
            i + sep@.len() <= s@.len(),
            forall|k: int| 0 <= k < j ==> s@[i + k] == sep@[k],
        decreases sepn - j,
    {
        if s[i + j] != sep[j] {
            proof {
                assert(s@.subrange(i as int, i + sep@.len())[j as int] == s@[i + j]);
            }
            return false;
        }
        j += 1;
    }
    proof {
        assert(s@.subrange(i as int, i + sep@.len()) =~= sep@);
    }
    true
}

/// The fields of `s` split on `sep`, per `split_chars`.
pub fn split_exec(s: &Vec<char>, sep: &Vec<char>) -> (fields: Vec<Vec<char>>)
    ensures
        fields.deep_view() == split_chars(s@, sep@),
{
    let mut fields: Vec<Vec<char>> = Vec::new();
    if sep.len() == 0 {
        let whole = subvec(s, 0, s.len());
        fields.push(whole);
        proof {
            assert(s@.subrange(0, s@.len() as int) =~= s@);
            assert(fields.deep_view() =~~= split_chars(s@, sep@));
        }
        return fields;
    }
    let mut start: usize = 0;
    let mut i: usize = 0;
    while s.len() - i >= sep.len()
        invariant
            0 < sep@.len(),
            0 <= start <= i <= s@.len(),
            fields.deep_view() + split_rec(s@, sep@, start as int, i as int) == split_chars(
                s@,
                sep@,
            ),
        decreases s@.len() - i,
    {
        if matches_at_exec(s, sep, i) {
            let field = subvec(s, start, i);
            let ghost old_fields = fields.deep_view();
            fields.push(field);
            proof {
                assert(fields.deep_view() =~~= old_fields.push(s@.subrange(
                    start as int,
                    i as int,
                )));
                assert(old_fields.push(s@.subrange(start as int, i as int)) + split_rec(
                    s@,
                    sep@,
                    i + sep@.len(),
                    i + sep@.len(),
                ) =~~= old_fields + split_rec(s@, sep@, start as int, i as int));
            }
            start = i + sep.len();
            i = start;
        } else {
            i += 1;
        }
    }
    let field = subvec(s, start, s.len());
    let ghost old_fields = fields.deep_view();
    fields.push(field);
    proof {
        assert(split_rec(s@, sep@, start as int, i as int) =~~= seq![
            s@.subrange(start as int, s@.len() as int),
        ]);
        assert(fields.deep_view() =~~= old_fields + split_rec(s@, sep@, start as int, i as int));
    }
    fields
}

/// A field text that the canonical format carries unchanged: free of the
/// double quote and of the comma.
pub open spec fn clean_field(f: Seq<char>) -> bool {
    forall|i: int| 0 <= i < f.len() ==> f[i] != '"' && f[i] != ','
}

/// Clean texts concatenate to a clean text.
pub proof fn lemma_clean_concat(a: Seq<char>, b: Seq<char>)
    requires
        clean_field(a),
        clean_field(b),
    ensures
        clean_field(a + b),
{
    assert forall|i: int| 0 <= i < (a + b).len() implies (a + b)[i] != '"' && (a + b)[i] != ',' by {
        if i < a.len() {
            assert((a + b)[i] == a[i]);
        } else {
            assert((a + b)[i] == b[i - a.len()]);
        }
    }
}

/// A field wrapped in double quotes.
pub open spec fn quoted(f: Seq<char>) -> Seq<char> {
    seq!['"'] + f + seq!['"']
}

/// Stripping a comma-joined row of seven double-quoted, quote-free fields
/// removes exactly the quotes.
#[verifier::rlimit(100)]
pub proof fn lemma_strip_join_seven(
    f0: Seq<char>,
    f1: Seq<char>,
    f2: Seq<char>,
    f3: Seq<char>,
    f4: Seq<char>,
    f5: Seq<char>,
    f6: Seq<char>,
)
    requires
        forall|i: int| 0 <= i < f0.len() ==> f0[i] != '"',
        forall|i: int| 0 <= i < f1.len() ==> f1[i] != '"',
        forall|i: int| 0 <= i < f2.len() ==> f2[i] != '"',
        forall|i: int| 0 <= i < f3.len() ==> f3[i] != '"',
        forall|i: int| 0 <= i < f4.len() ==> f4[i] != '"',
        forall|i: int| 0 <= i < f5.len() ==> f5[i] != '"',
        forall|i: int| 0 <= i < f6.len() ==> f6[i] != '"',
    ensures
        strip_quotes(
            quoted(f0) + seq![','] + quoted(f1) + seq![','] + quoted(f2) + seq![','] + quoted(f3)
                + seq![','] + quoted(f4) + seq![','] + quoted(f5) + seq![','] + quoted(f6),
        ) == f0 + seq![','] + f1 + seq![','] + f2 + seq![','] + f3 + seq![','] + f4 + seq![','] + f5
            + seq![','] + f6,
{
    let cm = seq![','];
    let q0 = quoted(f0);
    let q1 = quoted(f1);
    let q2 = quoted(f2);
    let q3 = quoted(f3);
    let q4 = quoted(f4);
    let q5 = quoted(f5);
    let q6 = quoted(f6);
    lemma_strip_quoted_field(f0);
    lemma_strip_quoted_field(f1);
    lemma_strip_quoted_field(f2);
    lemma_strip_quoted_field(f3);
    lemma_strip_quoted_field(f4);
    lemma_strip_quoted_field(f5);
    lemma_strip_quoted_field(f6);
    assert forall|i: int| 0 <= i < cm.len() implies cm[i] != '"' by {
        assert(cm[i] == ',');
    }
    lemma_strip_quotes_clean(cm);
    lemma_strip_quotes_add(q0, cm);
    lemma_strip_quotes_add(q0 + cm, q1);
    lemma_strip_quotes_add(q0 + cm + q1, cm);
    lemma_strip_quotes_add(q0 + cm + q1 + cm, q2);
    lemma_strip_quotes_add(q0 + cm + q1 + cm + q2, cm);
    lemma_strip_quotes_add(q0 + cm + q1 + cm + q2 + cm, q3);
    lemma_strip_quotes_add(q0 + cm + q1 + cm + q2 + cm + q3, cm);
    lemma_strip_quotes_add(q0 + cm + q1 + cm + q2 + cm + q3 + cm, q4);
    lemma_strip_quotes_add(q0 + cm + q1 + cm + q2 + cm + q3 + cm + q4, cm);
    lemma_strip_quotes_add(q0 + cm + q1 + cm + q2 + cm + q3 + cm + q4 + cm, q5);
    lemma_strip_quotes_add(q0 + cm + q1 + cm + q2 + cm + q3 + cm + q4 + cm + q5, cm);
    lemma_strip_quotes_add(q0 + cm + q1 + cm + q2 + cm + q3 + cm + q4 + cm + q5 + cm, q6);
}

/// Splitting a comma-joined row of seven comma-free fields on the comma
/// recovers exactly the seven fields.
#[verifier::rlimit(100)]
pub proof fn lemma_split_seven(
    f0: Seq<char>,
    f1: Seq<char>,
    f2: Seq<char>,
    f3: Seq<char>,
    f4: Seq<char>,
    f5: Seq<char>,
    f6: Seq<char>,
)
    requires
        forall|i: int| 0 <= i < f0.len() ==> f0[i] != ',',
        forall|i: int| 0 <= i < f1.len() ==> f1[i] != ',',
        forall|i: int| 0 <= i < f2.len() ==> f2[i] != ',',
        forall|i: int| 0 <= i < f3.len() ==> f3[i] != ',',
        forall|i: int| 0 <= i < f4.len() ==> f4[i] != ',',
        forall|i: int| 0 <= i < f5.len() ==> f5[i] != ',',
        forall|i: int| 0 <= i < f6.len() ==> f6[i] != ',',
    ensures
        split_chars(
            f0 + seq![','] + f1 + seq![','] + f2 + seq![','] + f3 + seq![','] + f4 + seq![','] + f5
                + seq![','] + f6,
            seq![','],
        ) == seq![f0, f1, f2, f3, f4, f5, f6],
{
    let cm = seq![','];
    let r6 = f6;
    let r5 = f5 + cm + r6;
    let r4 = f4 + cm + r5;
    let r3 = f3 + cm + r4;
    let r2 = f2 + cm + r3;
    let r1 = f1 + cm + r2;
    let r0 = f0 + cm + r1;
    assert(f0 + cm + f1 + cm + f2 + cm + f3 + cm + f4 + cm + f5 + cm + f6 =~= r0);
    lemma_split_single_head(f0, ',', r1);
    lemma_split_single_head(f1, ',', r2);
    lemma_split_single_head(f2, ',', r3);
    lemma_split_single_head(f3, ',', r4);
    lemma_split_single_head(f4, ',', r5);
    lemma_split_single_head(f5, ',', r6);
    lemma_split_single_whole(f6, ',');
    assert(split_chars(r0, cm) =~~= seq![f0, f1, f2, f3, f4, f5, f6]);
}

/// Text free of double quotes is unchanged by quote stripping.
pub proof fn lemma_strip_quotes_clean(s: Seq<char>)
    requires
        forall|i: int| 0 <= i < s.len() ==> s[i] != '"',
    ensures
        strip_quotes(s) == s,
    decreases s.len(),
{
    reveal_with_fuel(Seq::<_>::filter, 2);
    if s.len() > 0 {
        assert(forall|i: int| 0 <= i < s.drop_last().len() ==> s.drop_last()[i] != '"');
        lemma_strip_quotes_clean(s.drop_last());
        assert(s.last() != '"');
        assert(strip_quotes(s) == strip_quotes(s.drop_last()).push(s.last()));
        assert(s.drop_last().push(s.last()) =~= s);
    } else {
        assert(strip_quotes(s) =~= s);
    }
}

/// Quote stripping distributes over concatenation.
pub proof fn lemma_strip_quotes_add(a: Seq<char>, b: Seq<char>)
    ensures
        strip_quotes(a + b) == strip_quotes(a) + strip_quotes(b),
{
    broadcast use vstd::seq_lib::group_filter_ensures;

    assert(strip_quotes(a + b) == strip_quotes(a) + strip_quotes(b));
}

/// Stripping a double-quoted clean field yields the field itself.
pub proof fn lemma_strip_quoted_field(f: Seq<char>)
    requires
        forall|i: int| 0 <= i < f.len() ==> f[i] != '"',
    ensures
        strip_quotes(seq!['"'] + f + seq!['"']) == f,
{
    reveal_with_fuel(Seq::<_>::filter, 2);
    lemma_strip_quotes_add(seq!['"'] + f, seq!['"']);
    lemma_strip_quotes_add(seq!['"'], f);
    lemma_strip_quotes_clean(f);
    assert(seq!['"'].drop_last() =~= Seq::<char>::empty());
    assert(strip_quotes(seq!['"']) =~= Seq::<char>::empty());
}

/// Scanning over positions that hold no separator character does not
/// change the outcome of the split.
proof fn lemma_split_rec_advance(s: Seq<char>, c: char, start: int, i: int, j: int)
    requires
        0 <= start <= i <= j <= s.len(),
        forall|p: int| i <= p < j ==> s[p] != c,
    ensures
        split_rec(s, seq![c], start, i) == split_rec(s, seq![c], start, j),
    decreases j - i,
{
    if i < j {
        assert(s.subrange(i, i + 1) =~= seq![s[i]]);
        assert(s[i] != c);
        if s.subrange(i, i + 1) == seq![c] {
            assert(s.subrange(i, i + 1)[0] == c);
            assert(false);
        }
        lemma_split_rec_advance(s, c, start, i + 1, j);
    }
}

/// The scan from position `k` sees only the suffix from `k`.
proof fn lemma_split_rec_shift(s: Seq<char>, sep: Seq<char>, k: int, start: int, i: int)
    requires
        0 < sep.len(),
        0 <= k <= start <= i <= s.len(),
    ensures
        split_rec(s, sep, start, i) == split_rec(s.skip(k), sep, start - k, i - k),
    decreases s.len() - i,
{
    let t = s.skip(k);
    assert(t =~= s.subrange(k, s.len() as int));
    if i + sep.len() > s.len() {
        assert(s.subrange(start, s.len() as int) =~= t.subrange(start - k, t.len() as int));
    } else {
        assert(s.subrange(i, i + sep.len()) =~= t.subrange(i - k, i - k + sep.len()));
        if s.subrange(i, i + sep.len()) == sep {
            assert(s.subrange(start, i) =~= t.subrange(start - k, i - k));
            lemma_split_rec_shift(s, sep, k, i + sep.len(), i + sep.len());
        } else {
            lemma_split_rec_shift(s, sep, k, start, i + 1);
        }
    }
}

/// A text free of the separator character is one whole field.
pub proof fn lemma_split_single_whole(f: Seq<char>, c: char)
    requires
        forall|i: int| 0 <= i < f.len() ==> f[i] != c,
    ensures
        split_chars(f, seq![c]) == seq![f],
{
    lemma_split_rec_advance(f, c, 0, 0, f.len() as int);
    assert(f.subrange(0, f.len() as int) =~= f);
}

/// Splitting `field + separator + rest` cuts exactly at that separator,
/// when the field is free of the separator character.
pub proof fn lemma_split_single_head(f: Seq<char>, c: char, rest: Seq<char>)
    requires
        forall|i: int| 0 <= i < f.len() ==> f[i] != c,
    ensures
        split_chars(f + seq![c] + rest, seq![c]) == seq![f] + split_chars(rest, seq![c]),
{
    let s = f + seq![c] + rest;
    let fl = f.len() as int;
    assert forall|p: int| 0 <= p < fl implies s[p] != c by {
        assert(s[p] == f[p]);
    }
    lemma_split_rec_advance(s, c, 0, 0, fl);
    assert(s.subrange(fl, fl + 1) =~= seq![c]);
    assert(split_rec(s, seq![c], 0, fl) == seq![s.subrange(0, fl)] + split_rec(
        s,
        seq![c],
        fl + 1,
        fl + 1,
    ));
    assert(s.subrange(0, fl) =~= f);
    lemma_split_rec_shift(s, seq![c], fl + 1, fl + 1, fl + 1);
    assert(s.skip(fl + 1) =~= rest);
}

} // verus!
