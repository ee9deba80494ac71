use vstd::prelude::*;
use crate::chars::strip_quotes;
use crate::chars::split_chars;
use crate::chars::str_to_chars;
use crate::chars::strip_quotes_exec;
use crate::chars::split_exec;
use crate::chars::chars_to_string;
use crate::nums::parse_i32_spec;
use crate::nums::parse_i32;
use crate::ts::Timestamp;
use crate::ts::chrono_datetime_of;
use crate::ts::parse_timestamp;
use crate::validate::Validator;
use crate::validate::is_uuid_chars;
use crate::validate::is_app_version_chars;

verus! {

/// Why a raw line was rejected: one reason per field, reported for the
/// first failing field in validation order.
#[derive(Clone, Copy, PartialEq, Eq, Structural, Debug)]
pub enum ErrorReview {
    FieldCountError { expected: usize, actual: usize },
    InvalidIdentifier,
    MissingAuthor,
    MissingContent,
    InvalidScore,
    InvalidEngagementCount,
    InvalidAppVersion,
    InvalidTimestamp,
    OrphanIdentifier,
}

/// The mathematical model of a validated review.
pub ghost struct ReviewV {
    pub id: Seq<char>,
    pub user_name: Seq<char>,
    pub content: Seq<char>,
    pub score: int,
    pub thumbs_up: int,
    pub date: Timestamp,
    pub app_version: Seq<char>,
}

/// A fully validated review record.
#[derive(Debug)]
pub struct Review {
    pub id: String,
    pub user_name: String,
    pub content: String,
    pub score: i32,
    pub thumbs_up: i32,
    pub date: Timestamp,
    pub app_version: String,
}

impl View for Review {
    type V = ReviewV;

    open spec fn view(&self) -> ReviewV {
        ReviewV {
            id: self.id@,
            user_name: self.user_name@,
            content: self.content@,
            score: self.score as int,
            thumbs_up: self.thumbs_up as int,
            date: self.date,
            app_version: self.app_version@,
        }
    }
}

impl DeepView for Review {
    type V = ReviewV;

    open spec fn deep_view(&self) -> ReviewV {
        self.view()
    }
}

/// A numeric field's value: the parsed 32-bit integer, unless the strict
/// policy rejects the upstream "missing" sentinel -1.
pub open spec fn score_of(s: Seq<char>, strict: bool) -> Option<i32> {
    match parse_i32_spec(s) {
        Some(v) => if strict && v == -1i32 {
            None
        } else {
            Some(v)
        },
        None => None,
    }
}

/// The verdict on a split raw line. Field positions are fixed: identifier,
/// author, content, score, engagement count, app version, timestamp. Each
/// field validates independently; the error names the first failing field
/// in this order.
pub open spec fn validate_fields(fields: Seq<Seq<char>>, strict: bool) -> Result<
    ReviewV,
    ErrorReview,
> {
    if fields.len() < 7 {
        Err(ErrorReview::FieldCountError { expected: 7, actual: fields.len() as usize })
    } else if !is_uuid_chars(fields[0]) {
        Err(ErrorReview::InvalidIdentifier)
    } else if fields[1].len() == 0 {
        Err(ErrorReview::MissingAuthor)
    } else if fields[2].len() == 0 {
        Err(ErrorReview::MissingContent)
    } else if score_of(fields[3], strict) is None {
        Err(ErrorReview::InvalidScore)
    } else if score_of(fields[4], strict) is None {
        Err(ErrorReview::InvalidEngagementCount)
    } else if !is_app_version_chars(fields[5]) {
        Err(ErrorReview::InvalidAppVersion)
    } else if chrono_datetime_of(fields[6]) is None {
        Err(ErrorReview::InvalidTimestamp)
    } else {
        Ok(
            ReviewV {
                id: fields[0],
                user_name: fields[1],
                content: fields[2],
                score: score_of(fields[3], strict)->0 as int,
                thumbs_up: score_of(fields[4], strict)->0 as int,
                date: chrono_datetime_of(fields[6])->0,
                app_version: fields[5],
            },
        )
    }
}

/// The verdict on one raw line: strip double quotes, split on the
/// separator, then validate the fields.
#[verifier::opaque]
pub open spec fn validate_line(line: Seq<char>, sep: Seq<char>, strict: bool) -> Result<
    ReviewV,
    ErrorReview,
> {
    validate_fields(split_chars(strip_quotes(line), sep), strict)
}

impl Review {
    /// Parse and validate one raw line, exactly as `validate_line` says.
    pub fn new(validator: &Validator, line: &str, sep: &str) -> (r: Result<Review, ErrorReview>)
        ensures
            match validate_line(line@, sep@, validator.strict()) {
                Ok(rv) => r matches Ok(rev) && rev@ == rv,
                Err(e) => r matches Err(got) && got == e,
            },
    {
        proof {
            reveal(validate_line);
        }
        let line_chars = str_to_chars(line);
        let sep_chars = str_to_chars(sep);
        let stripped = strip_quotes_exec(&line_chars);
        let fields = split_exec(&stripped, &sep_chars);
        Self::from_fields(validator, &fields)
    }

    /// Validate an already-split line, exactly as `validate_fields` says.
    pub fn from_fields(validator: &Validator, fields: &Vec<Vec<char>>) -> (r: Result<
        Review,
        ErrorReview,
    >)
        ensures
            match validate_fields(fields.deep_view(), validator.strict()) {
                Ok(rv) => r matches Ok(rev) && rev@ == rv,
                Err(e) => r matches Err(got) && got == e,
            },
    {
        proof {
            assert(forall|i: int|
                0 <= i < fields@.len() ==> #[trigger] fields.deep_view()[i] == fields@[i]@);
        }
        if fields.len() < 7 {
            return Err(ErrorReview::FieldCountError { expected: 7, actual: fields.len() });
        }
        if !validator.matches_uuid(&fields[0]) {
            return Err(ErrorReview::InvalidIdentifier);
        }
        if fields[1].len() == 0 {
            return Err(ErrorReview::MissingAuthor);
        }
        if fields[2].len() == 0 {
            return Err(ErrorReview::MissingContent);
        }
        let score = match numeric_field(validator, &fields[3]) {
            Some(v) => v,
            None => {
                return Err(ErrorReview::InvalidScore);
            },
        };
        let thumbs_up = match numeric_field(validator, &fields[4]) {
            Some(v) => v,
            None => {
                return Err(ErrorReview::InvalidEngagementCount);
            },
        };
        if !validator.matches_app_version(&fields[5]) {
            return Err(ErrorReview::InvalidAppVersion);
        }
        let date = match parse_timestamp(&fields[6]) {
            Some(d) => d,
            None => {
                return Err(ErrorReview::InvalidTimestamp);
            },
        };
        Ok(
            Review {
                id: chars_to_string(&fields[0]),
                user_name: chars_to_string(&fields[1]),
                content: chars_to_string(&fields[2]),
                score,
                thumbs_up,
                date,
                app_version: chars_to_string(&fields[5]),
            },
        )
    }
}

/// A numeric field under the validator's sentinel policy.
fn numeric_field(validator: &Validator, f: &Vec<char>) -> (r: Option<i32>)
    ensures
        r == score_of(f@, validator.strict()),
{
    match parse_i32(f) {
        Some(v) => if validator.is_strict() && v == -1 {
            None
        } else {
            Some(v)
        },
        None => None,
    }
}

} // verus!
