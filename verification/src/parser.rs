use vstd::prelude::*;

verus! {

/// A field separator in the platform's time-left format.
pub open spec fn is_sep(c: char) -> bool {
    c == ':' || c == '.'
}

/// An ASCII decimal digit.
pub open spec fn is_digit(c: char) -> bool {
    48 <= c as u32 && c as u32 <= 57
}

pub open spec fn digit_val(c: char) -> nat {
    (c as int - 48) as nat
}

/// Splitting a string on ':' and '.', keeping empty fields, exactly as
/// std's `split` does: a string of n separators yields n + 1 fields.
pub open spec fn split_fields(s: Seq<char>) -> Seq<Seq<char>>
    decreases s.len(),
{
    if s.len() == 0 {
        seq![Seq::<char>::empty()]
    } else if is_sep(s[0]) {
        seq![Seq::<char>::empty()] + split_fields(s.skip(1))
    } else {
        let rest = split_fields(s.skip(1));
        seq![seq![s[0]] + rest[0]] + rest.skip(1)
    }
}

pub open spec fn all_digits(s: Seq<char>) -> bool {
    forall|i: int| 0 <= i < s.len() ==> is_digit(#[trigger] s[i])
}

/// The numeric value of a digit string, most significant digit first.
pub open spec fn digits_val(s: Seq<char>) -> nat
    decreases s.len(),
{
    if s.len() == 0 {
        0
    } else {
        digits_val(s.drop_last()) * 10 + digit_val(s.last())
    }
}

/// The digits of a field once an optional leading '+' sign is dropped,
/// as std's u64 parser accepts it.
pub open spec fn digits_part(s: Seq<char>) -> Seq<char> {
    if s.len() > 0 && s[0] == '+' {
        s.skip(1)
    } else {
        s
    }
}

pub open spec fn valid_field(s: Seq<char>) -> bool {
    let d = digits_part(s);
    d.len() > 0 && all_digits(d) && digits_val(d) <= u64::MAX
}

/// What one field of the time-left format parses to: its numeric value,
/// or nothing when it is not a number u64 accepts.
pub open spec fn field_parsed(s: Seq<char>) -> Option<u64> {
    if valid_field(s) {
        Some(digits_val(digits_part(s)) as u64)
    } else {
        None
    }
}

/// A string without separators is a single field.
proof fn lemma_split_no_sep(s: Seq<char>)
    requires
        forall|j: int| 0 <= j < s.len() ==> !is_sep(#[trigger] s[j]),
    ensures
        split_fields(s) =~= seq![s],
    decreases s.len(),
{
    if s.len() == 0 {
        assert(split_fields(s) == seq![Seq::<char>::empty()]);
        assert(s =~= Seq::<char>::empty());
    } else {
        assert(!is_sep(s[0]));
        lemma_split_no_sep(s.skip(1));
        assert(seq![s[0]] + s.skip(1) =~= s);
    }
}

/// Splitting at the first separator: the part before it is the first
/// field, and the rest splits on its own.
proof fn lemma_split_first_sep(s: Seq<char>, k: int)
    requires
        0 <= k < s.len(),
        is_sep(s[k]),
        forall|j: int| 0 <= j < k ==> !is_sep(#[trigger] s[j]),
    ensures
        split_fields(s) =~= seq![s.take(k)] + split_fields(s.skip(k + 1)),
    decreases k,
{
    if k == 0 {
        assert(s.take(0) =~= Seq::<char>::empty());
    } else {
        assert(!is_sep(s[0]));
        lemma_split_first_sep(s.skip(1), k - 1);
        let rest = split_fields(s.skip(1));
        assert(s.skip(1).take(k - 1) =~= s.take(k).skip(1));
        assert(rest[0] == s.take(k).skip(1));
        assert(seq![s[0]] + s.take(k).skip(1) =~= s.take(k));
        assert(s.skip(1).skip(k - 1 + 1) =~= s.skip(k + 1));
        assert(rest.skip(1) =~= split_fields(s.skip(k + 1)));
    }
}

proof fn lemma_digits_val_take_le(s: Seq<char>, j: int)
    requires
        0 <= j <= s.len(),
    ensures
        digits_val(s.take(j)) <= digits_val(s),
    decreases s.len() - j,
{
    if j < s.len() {
        assert(s.take(j + 1).drop_last() =~= s.take(j));
        assert(s.take(j + 1).last() == s[j]);
        assert(digits_val(s.take(j)) <= digits_val(s.take(j)) * 10 + digit_val(s[j]));
        lemma_digits_val_take_le(s, j + 1);
    } else {
        assert(s.take(j) =~= s);
    }
}

/// The views of a sequence of string slices.
spec fn views_of(fs: Seq<&str>) -> Seq<Seq<char>> {
    fs.map_values(|f: &str| f@)
}

/// Splits a string on ':' and '.' into its fields.
fn split_on_seps<'a>(s: &'a str) -> (fields: Vec<&'a str>)
    ensures
        views_of(fields@) =~= split_fields(s@),
{
    let n = s.unicode_len();
    let mut fields: Vec<&'a str> = Vec::new();
    let mut start: usize = 0;
    let mut i: usize = 0;
    proof {
        assert(s@.skip(0) =~= s@);
        assert(views_of(fields@) =~= Seq::<Seq<char>>::empty());
    }
    while i < n
        invariant
            start <= i <= n,
            n == s@.len(),
            views_of(fields@) + split_fields(s@.skip(start as int)) =~= split_fields(s@),
            forall|j: int| start <= j < i ==> !is_sep(#[trigger] s@[j]),
        decreases n - i,
    {
        let c = s.get_char(i);
        if c == ':' || c == '.' {
            let f = s.substring_char(start, i);
            proof {
                let t = s@.skip(start as int);
                lemma_split_first_sep(t, i - start as int);
                assert(t.take(i - start as int) =~= s@.subrange(start as int, i as int));
                assert(t.skip(i - start as int + 1) =~= s@.skip(i as int + 1));
                assert(views_of(fields@.push(f)) =~= views_of(fields@) + seq![f@]);
            }
            fields.push(f);
            start = i + 1;
        }
        i += 1;
    }
    let f = s.substring_char(start, n);
    proof {
        let t = s@.skip(start as int);
        lemma_split_no_sep(t);
        assert(t =~= s@.subrange(start as int, n as int));
        assert(views_of(fields@.push(f)) =~= views_of(fields@) + seq![f@]);
    }
    fields.push(f);
    fields
}

/// Parses one field as std's u64 parser would: an optional '+' sign, then
/// digits fitting a u64; anything else is rejected.
fn parse_field(s: &str) -> (r: Option<u64>)
    ensures
        r == field_parsed(s@),
{
    let n = s.unicode_len();
    let mut start: usize = 0;
    if n > 0 && s.get_char(0) == '+' {
        start = 1;
    }
    let ghost d = digits_part(s@);
    proof {
        assert(d =~= s@.skip(start as int));
    }
    if start == n {
        assert(!valid_field(s@));
        return None;
    }
    let mut acc: u64 = 0;
    let mut i: usize = start;
    while i < n
        invariant
            start <= i <= n,
            n == s@.len(),
            start < n,
            d == s@.skip(start as int),
            d == digits_part(s@),
            acc == digits_val(s@.subrange(start as int, i as int)),
            all_digits(s@.subrange(start as int, i as int)),
        decreases n - i,
    {
        let c = s.get_char(i);
        let u = c as u32;
        proof {
            assert(s@.subrange(start as int, i as int) =~= d.take(i - start as int));
        }
        if u < 48 || u > 57 {
            proof {
                assert(!is_digit(s@[i as int]));
                assert(d[i - start as int] == s@[i as int]);
                assert(!all_digits(d));
            }
            return None;
        }
        let dv: u64 = (u - 48) as u64;
        if acc > (u64::MAX - dv) / 10 {
            proof {
                let pre = d.take(i - start as int + 1);
                assert(pre.drop_last() =~= d.take(i - start as int));
                assert(pre.last() == d[i - start as int]);
                assert(d[i - start as int] == s@[i as int]);
                assert(digit_val(s@[i as int]) == dv);
                assert(digits_val(pre) == acc * 10 + dv);
                assert(acc * 10 + dv > u64::MAX) by {
                    assert(acc >= (u64::MAX - dv) / 10 + 1);
                    assert(((u64::MAX - dv) / 10 + 1) * 10 > u64::MAX - dv);
                };
                lemma_digits_val_take_le(d, i - start as int + 1);
                assert(digits_val(d) > u64::MAX);
                assert(!valid_field(s@));
            }
            return None;
        }
        proof {
            assert(acc * 10 + dv <= u64::MAX) by {
                assert(acc <= (u64::MAX - dv) / 10);
                assert(acc * 10 <= ((u64::MAX - dv) / 10) * 10);
                assert(((u64::MAX - dv) / 10) * 10 <= u64::MAX - dv);
            };
            let pre = s@.subrange(start as int, i as int + 1);
            assert(pre.drop_last() =~= s@.subrange(start as int, i as int));
            assert(pre.last() == s@[i as int]);
        }
        acc = acc * 10 + dv;
        i += 1;
    }
    proof {
        assert(s@.subrange(start as int, n as int) =~= d);
        assert(valid_field(s@));
    }
    Some(acc)
}

/// The total milliseconds of a days/hours/minutes/seconds reading.
pub open spec fn hms_total(d: nat, h: nat, m: nat, s: nat) -> nat {
    ((d * 24 + h) * 3600 + m * 60 + s) * 1000
}

/// A total that does not fit a u64 counts as unknown time.
pub open spec fn clip_to_u64(n: nat) -> u64 {
    if n <= u64::MAX {
        n as u64
    } else {
        0
    }
}

/// What the platform's human-readable time-left string means in
/// milliseconds: three fields are hours:minutes:seconds, four are
/// days.hours:minutes:seconds. Anything else — too few or too many
/// fields, or any field that is not a valid u64 — is unknown (0).
pub open spec fn hms_ms(s: Seq<char>) -> u64 {
    let f = split_fields(s);
    if f.len() == 3 {
        match (field_parsed(f[0]), field_parsed(f[1]), field_parsed(f[2])) {
            (Some(h), Some(m), Some(sec)) => clip_to_u64(
                hms_total(0, h as nat, m as nat, sec as nat),
            ),
            _ => 0,
        }
    } else if f.len() == 4 {
        match (field_parsed(f[0]), field_parsed(f[1]), field_parsed(f[2]), field_parsed(f[3])) {
            (Some(d), Some(h), Some(m), Some(sec)) => clip_to_u64(
                hms_total(d as nat, h as nat, m as nat, sec as nat),
            ),
            _ => 0,
        }
    } else {
        0
    }
}

/// Converts the platform's human-readable time-left string ("hh:mm:ss" or
/// "dd.hh:mm:ss") to milliseconds; malformed input — a wrong field count
/// or any non-numeric field — degrades the whole conversion to 0.
pub fn string_hms_to_ms(string: &String) -> (r: u64)
    ensures
        r == hms_ms(string@),
{
    let s = string.as_str();
    let fields = split_on_seps(s);
    proof {
        assert(views_of(fields@).len() == fields@.len());
    }
    if fields.len() < 3 || fields.len() > 4 {
        return 0;
    }
    let days: Option<u64>;
    let hours: Option<u64>;
    let minutes: Option<u64>;
    let seconds: Option<u64>;
    if fields.len() == 3 {
        days = Some(0);
        hours = parse_field(fields[0]);
        minutes = parse_field(fields[1]);
        seconds = parse_field(fields[2]);
    } else {
        days = parse_field(fields[0]);
        hours = parse_field(fields[1]);
        minutes = parse_field(fields[2]);
        seconds = parse_field(fields[3]);
    }
    proof {
        assert(views_of(fields@)[0] == fields@[0]@);
        assert(views_of(fields@)[1] == fields@[1]@);
        assert(views_of(fields@)[2] == fields@[2]@);
        if fields@.len() == 4 {
            assert(views_of(fields@)[3] == fields@[3]@);
        }
    }
    match (days, hours, minutes, seconds) {
        (Some(d), Some(h), Some(m), Some(sec)) => {
            let total: u128 = (((d as u128) * 24 + (h as u128)) * 3600 + (m as u128) * 60
                + (sec as u128)) * 1000;
            proof {
                assert(total == hms_total(d as nat, h as nat, m as nat, sec as nat));
            }
            if total > u64::MAX as u128 {
                0
            } else {
                total as u64
            }
        },
        _ => 0,
    }
}

/// What humantime renders for a duration of `ms` milliseconds; the text
/// depends on the milliseconds alone.
pub uninterp spec fn eta_text_of(ms: u64) -> Seq<char>;

/// Relies on humantime::format_duration: a nonzero duration renders as a
/// list of components, the first being the decimal digits of the largest
/// nonzero unit, so the text is nonempty and starts with a digit.
#[verifier::external_body]
fn format_eta(ms: u64) -> (r: String)
    ensures
        r@ == eta_text_of(ms),
        ms > 0 ==> r@.len() > 0 && is_digit(r@[0]),
{
    humantime::format_duration(std::time::Duration::from_millis(ms)).to_string()
}

/// Renders a millisecond count as a coarse human-readable duration; 0
/// (unknown remaining time) renders as "Infinite".
pub fn ms_to_eta_string(ms: &u64) -> (r: String)
    ensures
        *ms == 0 ==> r@ == "Infinite"@,
        *ms != 0 ==> r@ == eta_text_of(*ms),
        r@.len() > 0,
        *ms != 0 ==> r@ != "Infinite"@,
{
    if *ms == 0 {
        let r = String::from_str("Infinite");
        proof {
            reveal_strlit("Infinite");
        }
        r
    } else {
        let r = format_eta(*ms);
        proof {
            reveal_strlit("Infinite");
            assert(!is_digit('I'));
            assert(r@ != "Infinite"@);
        }
        r
    }
}

/// What bytesize's parser yields for a string: the byte count it denotes,
/// or nothing when the string is not a size it accepts; the result
/// depends on the string alone.
pub uninterp spec fn bytes_of(s: Seq<char>) -> Option<u64>;

/// Relies on str::parse::<bytesize::ByteSize> and ByteSize::as_u64:
/// parsing a size string such as "1 TB" to its exact byte count.
#[verifier::external_body]
fn parse_bytesize(s: &str) -> (r: Option<u64>)
    ensures
        r == bytes_of(s@),
{
    match s.parse::<bytesize::ByteSize>() {
        Ok(size) => Some(size.as_u64()),
        Err(_) => None,
    }
}

/// The byte count a size string denotes; unparsable input degrades to 0.
pub open spec fn bytesize_bytes(s: Seq<char>) -> u64 {
    match bytes_of(s) {
        Some(b) => b,
        None => 0,
    }
}

/// Converts a human-readable size such as "1 TB", "512 MB" or "1.5 GB" to
/// bytes; unparsable input degrades to 0.
pub fn string_bytesize_to_bytes(string: &String) -> (r: u64)
    ensures
        r == bytesize_bytes(string@),
{
    match parse_bytesize(string.as_str()) {
        Some(b) => b,
        None => 0,
    }
}

#[verifier::external_type_specification]
#[verifier::external_body]
pub struct ExMsConverterError(ms_converter::Error);

/// What ms_converter's parser yields for a string: milliseconds, or
/// nothing when the string is not a duration it accepts; the result
/// depends on the string alone.
pub uninterp spec fn converted_ms_of(s: Seq<char>) -> Option<i64>;

/// Relies on ms_converter::ms: parsing a human-readable duration such as
/// "1h" to milliseconds.
#[verifier::external_body]
fn convert_ms(s: &str) -> (r: Result<i64, ms_converter::Error>)
    ensures
        (match r {
            Ok(v) => converted_ms_of(s@) == Some(v),
            Err(_) => converted_ms_of(s@) is None,
        }),
{
    ms_converter::ms(s)
}

/// The error reported for a duration string ms_converter rejects.
#[derive(Clone, Copy, Debug, PartialEq, Eq, Structural)]
pub struct MsConvertError;

/// Converts a human-readable duration such as "1h" to milliseconds.
pub fn string_to_ms(string: &String) -> (r: Result<i64, MsConvertError>)
    ensures
        (match r {
            Ok(v) => converted_ms_of(string@) == Some(v),
            Err(_) => converted_ms_of(string@) is None,
        }),
{
    match convert_ms(string.as_str()) {
        Ok(v) => Ok(v),
        Err(_) => Err(MsConvertError),
    }
}

} // verus!
