use vstd::prelude::*;
use crate::chars::strip_quotes;
use crate::chars::split_chars;
use crate::chars::str_to_chars;
use crate::chars::strip_quotes_exec;
use crate::chars::split_exec;
use crate::chars::chars_to_string;
use crate::nums::parse_i32_spec;
use crate::nums::parse_i32;
use crate::review::ReviewV;
use crate::ts::chrono_datetime_of;
use crate::ts::parse_timestamp;

verus! {

/// Why a canonical line was rejected by the loader-side parser: one reason
/// per checked field, reported for the first failing field.
#[derive(Clone, Copy, PartialEq, Eq, Structural, Debug)]
pub enum RecordError {
    FieldCountError { expected: usize, actual: usize },
    InvalidScore,
    InvalidEngagementCount,
    InvalidTimestamp,
}

/// A record read back from the canonical output. Its columns follow the
/// canonical order: identifier, author, content, score, engagement count,
/// timestamp, app version. Text fields are taken as they stand; only the
/// numeric fields and the timestamp are parsed.
#[derive(Debug)]
pub struct Record {
    pub id: String,
    pub user_name: String,
    pub content: String,
    pub score: i32,
    pub thumbs_up: i32,
    pub date: crate::ts::Timestamp,
    pub app_version: String,
}

impl View for Record {
    type V = ReviewV;

    open spec fn view(&self) -> ReviewV {
        ReviewV {
            id: self.id@,
            user_name: self.user_name@,
            content: self.content@,
            score: self.score as int,
            thumbs_up: self.thumbs_up as int,
            date: self.date,
            app_version: self.app_version@,
        }
    }
}

/// The loader's verdict on a split canonical line.
pub open spec fn record_fields(fields: Seq<Seq<char>>) -> Result<ReviewV, RecordError> {
    if fields.len() < 7 {
        Err(RecordError::FieldCountError { expected: 7, actual: fields.len() as usize })
    } else if parse_i32_spec(fields[3]) is None {
        Err(RecordError::InvalidScore)
    } else if parse_i32_spec(fields[4]) is None {
        Err(RecordError::InvalidEngagementCount)
    } else if chrono_datetime_of(fields[5]) is None {
        Err(RecordError::InvalidTimestamp)
    } else {
        Ok(
            ReviewV {
                id: fields[0],
                user_name: fields[1],
                content: fields[2],
                score: parse_i32_spec(fields[3])->0 as int,
                thumbs_up: parse_i32_spec(fields[4])->0 as int,
                date: chrono_datetime_of(fields[5])->0,
                app_version: fields[6],
            },
        )
    }
}

/// The loader's verdict on one canonical line: strip double quotes, split
/// on the separator, then read the fields.
pub open spec fn record_line(line: Seq<char>, sep: Seq<char>) -> Result<ReviewV, RecordError> {
    record_fields(split_chars(strip_quotes(line), sep))
}

impl Record {
    /// Parse one canonical line, exactly as `record_line` says.
    pub fn new(line: &str, sep: &str) -> (r: Result<Record, RecordError>)
        ensures
            match record_line(line@, sep@) {
                Ok(rv) => r matches Ok(rec) && rec@ == rv,
                Err(e) => r matches Err(got) && got == e,
            },
    {
        let line_chars = str_to_chars(line);
        let sep_chars = str_to_chars(sep);
        let stripped = strip_quotes_exec(&line_chars);
        let fields = split_exec(&stripped, &sep_chars);
        proof {
            assert(forall|i: int|
                0 <= i < fields@.len() ==> #[trigger] fields.deep_view()[i] == fields@[i]@);
        }
        if fields.len() < 7 {
            return Err(RecordError::FieldCountError { expected: 7, actual: fields.len() });
        }
        let score = match parse_i32(&fields[3]) {
            Some(v) => v,
            None => {
                return Err(RecordError::InvalidScore);
            },
        };
        let thumbs_up = match parse_i32(&fields[4]) {
            Some(v) => v,
            None => {
                return Err(RecordError::InvalidEngagementCount);
            },
        };
        let date = match parse_timestamp(&fields[5]) {
            Some(d) => d,
            None => {
                return Err(RecordError::InvalidTimestamp);
            },
        };
        Ok(
            Record {
                id: chars_to_string(&fields[0]),
                user_name: chars_to_string(&fields[1]),
                content: chars_to_string(&fields[2]),
                score,
                thumbs_up,
                date,
                app_version: chars_to_string(&fields[6]),
            },
        )
    }
}

/// Stripping and splitting a canonical line recovers exactly the seven
/// rendered field texts.
proof fn lemma_canonical_fields(r: ReviewV)
    requires
        crate::chars::clean_field(r.id),
        crate::chars::clean_field(r.user_name),
        crate::chars::clean_field(r.content),
        crate::chars::clean_field(r.app_version),
        0 <= r.date.year <= 9999,
    ensures
        crate::chars::split_chars(
            crate::chars::strip_quotes(crate::pipeline::canonical_line(r)),
            seq![','],
        ) == seq![
            r.id,
            r.user_name,
            r.content,
            crate::nums::render_i32(r.score),
            crate::nums::render_i32(r.thumbs_up),
            crate::ts::render_ts(r.date),
            r.app_version,
        ],
{
    let f3 = crate::nums::render_i32(r.score);
    let f4 = crate::nums::render_i32(r.thumbs_up);
    let f5 = crate::ts::render_ts(r.date);
    crate::nums::lemma_render_i32_clean(r.score);
    crate::nums::lemma_render_i32_clean(r.thumbs_up);
    crate::ts::lemma_render_ts_clean(r.date);
    crate::chars::lemma_strip_join_seven(r.id, r.user_name, r.content, f3, f4, f5, r.app_version);
    crate::chars::lemma_split_seven(r.id, r.user_name, r.content, f3, f4, f5, r.app_version);
}

/// A canonical line parses back, under the canonical column order, to
/// exactly the record it was written from. The last premise is what the
/// timestamp parser's contract states of every rendered valid timestamp;
/// `reparse_canonical` discharges it by making that call.
pub proof fn lemma_canonical_round_trip(r: ReviewV)
    requires
        crate::chars::clean_field(r.id),
        crate::chars::clean_field(r.user_name),
        crate::chars::clean_field(r.content),
        crate::chars::clean_field(r.app_version),
        i32::MIN <= r.score <= i32::MAX,
        i32::MIN <= r.thumbs_up <= i32::MAX,
        crate::ts::valid_calendar(r.date),
        chrono_datetime_of(crate::ts::render_ts(r.date)) == Some(r.date),
    ensures
        record_line(crate::pipeline::canonical_line(r), seq![',']) == Ok::<ReviewV, RecordError>(
            r,
        ),
{
    lemma_canonical_fields(r);
    let fields = crate::chars::split_chars(
        crate::chars::strip_quotes(crate::pipeline::canonical_line(r)),
        seq![','],
    );
    crate::nums::lemma_render_i32_round_trip(r.score as i32);
    crate::nums::lemma_render_i32_round_trip(r.thumbs_up as i32);
    assert(parse_i32_spec(fields[3]) == Some(r.score as i32));
    assert(parse_i32_spec(fields[4]) == Some(r.thumbs_up as i32));
    assert(chrono_datetime_of(fields[5]) == Some(r.date));
    assert(record_fields(fields) == Ok::<ReviewV, RecordError>(r));
}

/// Writing a record as a canonical line and parsing it back yields the
/// record unchanged: the textual half of idempotence, checked end to end
/// through the real timestamp parser.
pub fn reparse_canonical(rec: &crate::review::Review) -> (out: Result<Record, RecordError>)
    requires
        crate::chars::clean_field(rec.id@),
        crate::chars::clean_field(rec.user_name@),
        crate::chars::clean_field(rec.content@),
        crate::chars::clean_field(rec.app_version@),
        crate::ts::valid_calendar(rec.date),
    ensures
        out matches Ok(back) && back@ == rec@,
{
    let ts_text = crate::ts::format_timestamp(&rec.date);
    let parsed = crate::ts::parse_timestamp(&ts_text);
    proof {
        assert(parsed == Some(rec.date));
        lemma_canonical_round_trip(rec@);
    }
    let line_chars = crate::pipeline::format_review(rec);
    let line = chars_to_string(&line_chars);
    let out = Record::new(line.as_str(), ",");
    proof {
        reveal_strlit(",");
        assert(","@ =~= seq![',']);
    }
    out
}

} // verus!
