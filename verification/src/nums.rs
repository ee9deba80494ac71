use vstd::prelude::*;

verus! {

/// An ASCII decimal digit.
pub open spec fn is_digit(c: char) -> bool {
    48 <= c as u32 && c as u32 <= 57
}

/// The value of an ASCII decimal digit.
pub open spec fn digit_val(c: char) -> int {
    c as u32 - 48
}

/// Every character of `s` is an ASCII decimal digit.
pub open spec fn all_digits(s: Seq<char>) -> bool {
    forall|i: int| 0 <= i < s.len() ==> is_digit(s[i])
}

/// The value of a sequence of decimal digits, most significant first.
pub open spec fn digits_val(s: Seq<char>) -> int
    decreases s.len(),
{
    if s.len() == 0 {
        0
    } else {
        digits_val(s.drop_last()) * 10 + digit_val(s.last())
    }
}

/// The texts accepted by `str::parse::<i32>`: an optional leading `+` or `-`
/// sign followed by one or more ASCII decimal digits, nothing else.
pub open spec fn is_int_text(s: Seq<char>) -> bool {
    if s.len() == 0 {
        false
    } else if s[0] == '+' || s[0] == '-' {
        s.len() > 1 && all_digits(s.subrange(1, s.len() as int))
    } else {
        all_digits(s)
    }
}

/// The signed value of an integer text.
pub open spec fn int_text_val(s: Seq<char>) -> int {
    if s.len() > 0 && s[0] == '-' {
        -digits_val(s.subrange(1, s.len() as int))
    } else if s.len() > 0 && s[0] == '+' {
        digits_val(s.subrange(1, s.len() as int))
    } else {
        digits_val(s)
    }
}

/// What `str::parse::<i32>` returns on `s`: the value when the text is well
/// formed and in range, nothing otherwise.
pub open spec fn parse_i32_spec(s: Seq<char>) -> Option<i32> {
    if is_int_text(s) && i32::MIN <= int_text_val(s) <= i32::MAX {
        Some(int_text_val(s) as i32)
    } else {
        None
    }
}

pub proof fn lemma_digits_val_nonneg(s: Seq<char>)
    requires
        all_digits(s),
    ensures
        digits_val(s) >= 0,
    decreases s.len(),
{
    if s.len() > 0 {
        assert(all_digits(s.drop_last()));
        lemma_digits_val_nonneg(s.drop_last());
        assert(is_digit(s.last()));
    }
}

/// Appending one digit multiplies the value by ten and adds the digit.
pub proof fn lemma_digits_val_push(s: Seq<char>, c: char)
    ensures
        digits_val(s.push(c)) == digits_val(s) * 10 + digit_val(c),
{
    assert(s.push(c).drop_last() =~= s);
    assert(s.push(c).last() == c);
}

/// Parse a vector of characters exactly as `str::parse::<i32>` would.
pub fn parse_i32(s: &Vec<char>) -> (r: Option<i32>)
    ensures
        r == parse_i32_spec(s@),
{
    let n = s.len();
    if n == 0 {
        return None;
    }
    let c0 = s[0];
    let neg = c0 == '-';
    let has_sign = neg || c0 == '+';
    let d0: usize = if has_sign {
        1
    } else {
        0
    };
    if n == d0 {
        return None;
    }
    let mut j: usize = d0;
    let mut acc: u32 = 0;
    let mut over = false;
    while j < n
        invariant
            d0 <= j <= n,
            n == s@.len(),
            d0 == 1 <==> (s@[0] == '+' || s@[0] == '-'),
            d0 <= 1,
            n > d0,
            forall|k: int| d0 <= k < j ==> is_digit(s@[k]),
            !over ==> acc == digits_val(s@.subrange(d0 as int, j as int)) && acc <= 0x8000_0000u32,
            over ==> digits_val(s@.subrange(d0 as int, j as int)) > 0x8000_0000,
        decreases n - j,
    {
        let c = s[j];
        let cu = c as u32;
        if cu < 48 || cu > 57 {
            proof {
                if is_int_text(s@) {
                    if d0 == 1 {
                        assert(s@.subrange(1, n as int)[j - 1] == s@[j as int]);
                    }
                    assert(is_digit(s@[j as int]));
                }
            }
            return None;
        }
        let d = cu - 48;
        proof {
            let pre = s@.subrange(d0 as int, j as int);
            assert(s@.subrange(d0 as int, j + 1 as int) =~= pre.push(s@[j as int]));
            lemma_digits_val_push(pre, s@[j as int]);
        }
        if !over {
            let t: u64 = acc as u64 * 10 + d as u64;
            if t > 0x8000_0000u64 {
                over = true;
            } else {
                acc = t as u32;
            }
        }
        j += 1;
    }
    proof {
        if d0 == 1 {
            assert(s@.subrange(1, n as int) =~= s@.subrange(d0 as int, n as int));
            assert(forall|k: int|
                0 <= k < s@.subrange(1, n as int).len() ==> is_digit(
                    #[trigger] s@.subrange(1, n as int)[k],
                ));
        } else {
            assert(forall|k: int| 0 <= k < n ==> is_digit(#[trigger] s@[k]));
        }
        assert(is_int_text(s@));
        lemma_digits_val_nonneg(s@.subrange(d0 as int, n as int));
    }
    let ghost mag = digits_val(s@.subrange(d0 as int, n as int));
    proof {
        if d0 == 0 {
            assert(s@.subrange(0, n as int) =~= s@);
        }
        if neg {
            assert(int_text_val(s@) == -mag);
        } else {
            assert(int_text_val(s@) == mag);
        }
    }
    if over {
        return None;
    }
    if neg {
        if acc == 0x8000_0000u32 {
            Some(i32::MIN)
        } else {
            Some(-(acc as i32))
        }
    } else {
        if acc <= 0x7FFF_FFFFu32 {
            Some(acc as i32)
        } else {
            None
        }
    }
}

/// The character of one decimal digit value.
pub open spec fn digit_char(d: int) -> char {
    if d == 0 {
        '0'
    } else if d == 1 {
        '1'
    } else if d == 2 {
        '2'
    } else if d == 3 {
        '3'
    } else if d == 4 {
        '4'
    } else if d == 5 {
        '5'
    } else if d == 6 {
        '6'
    } else if d == 7 {
        '7'
    } else if d == 8 {
        '8'
    } else {
        '9'
    }
}

/// The decimal digits of a non-negative number, most significant first, with
/// no leading zeros (a single zero for 0).
pub open spec fn dec_digits(n: int) -> Seq<char>
    decreases n,
    when n >= 0
{
    if n < 10 {
        seq![digit_char(n)]
    } else {
        dec_digits(n / 10).push(digit_char(n % 10))
    }
}

/// How a signed number is rendered: a minus sign for negatives, then digits.
pub open spec fn render_i32(v: int) -> Seq<char> {
    if v < 0 {
        seq!['-'] + dec_digits(-v)
    } else {
        dec_digits(v)
    }
}

/// Decimal rendering produces digits whose value is the number itself.
pub proof fn lemma_dec_digits_ok(n: int)
    requires
        n >= 0,
    ensures
        all_digits(dec_digits(n)),
        digits_val(dec_digits(n)) == n,
        dec_digits(n).len() >= 1,
    decreases n,
{
    if n < 10 {
        assert(is_digit(digit_char(n)));
        assert(dec_digits(n) =~= seq![digit_char(n)]);
        let s1 = seq![digit_char(n)];
        assert(s1.drop_last() =~= Seq::<char>::empty());
        assert(digits_val(s1) == digits_val(s1.drop_last()) * 10 + digit_val(s1.last()));
        assert(digits_val(Seq::<char>::empty()) == 0);
        assert(digit_val(digit_char(n)) == n);
    } else {
        lemma_dec_digits_ok(n / 10);
        lemma_digits_val_push(dec_digits(n / 10), digit_char(n % 10));
        assert(digit_val(digit_char(n % 10)) == n % 10);
        assert(digits_val(dec_digits(n)) == (n / 10) * 10 + n % 10);
        assert(forall|i: int|
            0 <= i < dec_digits(n).len() ==> is_digit(#[trigger] dec_digits(n)[i]));
    }
}

/// Rendering then parsing a 32-bit value gives the value back.
pub proof fn lemma_render_i32_round_trip(v: i32)
    ensures
        parse_i32_spec(render_i32(v as int)) == Some(v),
{
    let s = render_i32(v as int);
    if v < 0 {
        let d = dec_digits(-(v as int));
        lemma_dec_digits_ok(-(v as int));
        assert(s[0] == '-');
        assert(s.subrange(1, s.len() as int) =~= d);
        assert(int_text_val(s) == v as int);
    } else {
        lemma_dec_digits_ok(v as int);
        assert(s =~= dec_digits(v as int));
        assert(is_digit(s[0]));
        assert(s[0] != '+' && s[0] != '-');
        assert(int_text_val(s) == v as int);
    }
}

/// Digit runs concatenate to digit runs.
pub proof fn lemma_all_digits_concat(a: Seq<char>, b: Seq<char>)
    requires
        all_digits(a),
        all_digits(b),
    ensures
        all_digits(a + b),
{
    assert forall|i: int| 0 <= i < (a + b).len() implies is_digit((a + b)[i]) by {
        if i < a.len() {
            assert((a + b)[i] == a[i]);
        } else {
            assert((a + b)[i] == b[i - a.len()]);
        }
    }
}

/// A digit text holds neither a double quote nor a comma.
pub proof fn lemma_digits_clean(s: Seq<char>)
    requires
        all_digits(s),
    ensures
        crate::chars::clean_field(s),
{
    assert forall|i: int| 0 <= i < s.len() implies s[i] != '"' && s[i] != ',' by {
        assert(is_digit(s[i]));
        assert('"' as u32 == 34 && ',' as u32 == 44);
    }
}

/// A rendered 32-bit number holds only digits and a possible leading
/// minus sign: neither a double quote nor a comma.
pub proof fn lemma_render_i32_clean(v: int)
    ensures
        crate::chars::clean_field(render_i32(v)),
{
    if v < 0 {
        lemma_dec_digits_ok(-v);
        lemma_digits_clean(dec_digits(-v));
        assert forall|i: int| 0 <= i < seq!['-'].len() implies seq!['-'][i] != '"' && seq!['-'][i]
            != ',' by {
            assert(seq!['-'][i] == '-');
        }
        crate::chars::lemma_clean_concat(seq!['-'], dec_digits(-v));
    } else {
        lemma_dec_digits_ok(v);
        lemma_digits_clean(dec_digits(v));
    }
}

/// One decimal digit as a character.
pub fn digit_char_exec(d: u32) -> (c: char)
    requires
        d < 10,
    ensures
        c == digit_char(d as int),
{
    if d == 0 {
        '0'
    } else if d == 1 {
        '1'
    } else if d == 2 {
        '2'
    } else if d == 3 {
        '3'
    } else if d == 4 {
        '4'
    } else if d == 5 {
        '5'
    } else if d == 6 {
        '6'
    } else if d == 7 {
        '7'
    } else if d == 8 {
        '8'
    } else {
        '9'
    }
}

/// The decimal rendering of a 32-bit unsigned number.
pub fn format_u32(n: u32) -> (out: Vec<char>)
    ensures
        out@ == dec_digits(n as int),
{
    let mut out: Vec<char> = Vec::new();
    let mut x: u32 = n;
    let d = digit_char_exec(x % 10);
    out.insert(0, d);
    proof {
        if n >= 10 {
            assert(dec_digits(n as int) =~= dec_digits(n as int / 10) + seq![
                digit_char(n as int % 10),
            ]);
        } else {
            assert(out@ =~= dec_digits(n as int));
        }
    }
    x = x / 10;
    while x > 0
        invariant
            x > 0 ==> dec_digits(n as int) == dec_digits(x as int) + out@,
            x == 0 ==> dec_digits(n as int) == out@,
        decreases x,
    {
        let d = digit_char_exec(x % 10);
        let ghost old_out = out@;
        out.insert(0, d);
        proof {
            assert(out@ =~= seq![digit_char(x as int % 10)] + old_out);
            if x >= 10 {
                assert(dec_digits(x as int) =~= dec_digits(x as int / 10) + seq![
                    digit_char(x as int % 10),
                ]);
                assert(dec_digits(x as int / 10) + seq![digit_char(x as int % 10)] + old_out =~= dec_digits(
                    x as int / 10,
                ) + (seq![digit_char(x as int % 10)] + old_out));
            } else {
                assert(dec_digits(x as int) =~= seq![digit_char(x as int % 10)]);
            }
        }
        x = x / 10;
    }
    out
}

/// The decimal rendering of a 32-bit signed number, as `render_i32` says.
pub fn format_i32(v: i32) -> (out: Vec<char>)
    ensures
        out@ == render_i32(v as int),
{
    if v >= 0 {
        let out = format_u32(v as u32);
        out
    } else {
        let m: u32 = (0i64 - v as i64) as u32;
        let mut out: Vec<char> = Vec::new();
        out.push('-');
        let mut digs = format_u32(m);
        out.append(&mut digs);
        proof {
            assert(out@ =~= seq!['-'] + dec_digits(m as int));
        }
        out
    }
}

} // verus!
