use vstd::prelude::*;
use crate::errors::Error;
use crate::strutil::{chars_of, push_char};

verus! {

/// The seconds value that a `yyyy-MM-dd HH:mm:ss` text denotes, or `None`
/// where the text does not parse. The result is a function of the
/// characters alone; nothing further is assumed about it.
pub uninterp spec fn parsed_datetime(s: Seq<char>) -> Option<int>;

/// Relies on `chrono::NaiveDateTime::parse_from_str` with the format
/// `%Y-%m-%d %H:%M:%S` (deterministic in the input characters), and on
/// `NaiveDateTime::and_utc` followed by `DateTime::timestamp`, which count
/// the parsed moment in non-leap seconds since 1970-01-01 00:00:00.
#[verifier::external_body]
pub(crate) fn parse_datetime(s: &String) -> (r: Option<i64>)
    ensures
        (r is Some) == (parsed_datetime(s@) is Some),
        r matches Some(v) ==> parsed_datetime(s@) == Some(v as int),
{
    match chrono::NaiveDateTime::parse_from_str(s.as_str(), "%Y-%m-%d %H:%M:%S") {
        Ok(dt) => Some(dt.and_utc().timestamp()),
        Err(_) => None,
    }
}

/// Decides whether `time` lies more than `min_delta_time` minutes after
/// `time_ref` — strictly more: a gap of exactly `min_delta_time` minutes is
/// not independent, the same comparison the sequential classifier makes.
/// Both texts must be `yyyy-MM-dd HH:mm:ss` timestamps; a text that does
/// not parse is a [`Error::BadTimeFormat`] failure.
pub fn is_temporal_independent(time_ref: String, time: String, min_delta_time: i32) -> (r: Result<
    bool,
    Error,
>)
    ensures
        (r is Ok) == (parsed_datetime(time_ref@) is Some && parsed_datetime(time@) is Some),
        r matches Ok(b) ==> b == (parsed_datetime(time@).unwrap() - parsed_datetime(
            time_ref@,
        ).unwrap() > min_delta_time as int * 60),
        r is Err ==> r == Err::<bool, Error>(Error::BadTimeFormat),
{
    let dt_ref = match parse_datetime(&time_ref) {
        Some(t) => t,
        None => {
            return Err(Error::BadTimeFormat);
        },
    };
    let dt = match parse_datetime(&time) {
        Some(t) => t,
        None => {
            return Err(Error::BadTimeFormat);
        },
    };
    let diff: i128 = dt as i128 - dt_ref as i128;
    Ok(diff > min_delta_time as i128 * 60)
}

/// Not a zulu designator.
pub open spec fn not_zulu(c: char) -> bool {
    c != 'Z'
}

/// The characters before the first `+`.
pub open spec fn until_plus(s: Seq<char>) -> Seq<char>
    decreases s.len(),
{
    if s.len() == 0 {
        s
    } else if s[0] == '+' {
        Seq::empty()
    } else {
        seq![s[0]] + until_plus(s.skip(1))
    }
}

/// A timestamp text with its timezone designators removed: every `Z`
/// dropped, and everything from the first `+` offset on cut away.
pub open spec fn zone_stripped(s: Seq<char>) -> Seq<char> {
    until_plus(s.filter(|c: char| not_zulu(c)))
}

proof fn lemma_until_plus_clean(a: Seq<char>, b: Seq<char>)
    requires
        forall|k: int| 0 <= k < a.len() ==> a[k] != '+',
        b.len() == 0 || b[0] == '+',
    ensures
        until_plus(a + b) == a,
    decreases a.len(),
{
    if a.len() == 0 {
        assert(a + b =~= b);
        assert(until_plus(b) =~= a);
    } else {
        assert((a + b)[0] == a[0]);
        assert((a + b).skip(1) =~= a.skip(1) + b);
        assert(forall|k: int| 0 <= k < a.skip(1).len() ==> a.skip(1)[k] != '+');
        lemma_until_plus_clean(a.skip(1), b);
        assert(seq![a[0]] + a.skip(1) =~= a);
    }
}

/// Removes timezone designators from a timestamp text, so that only the
/// naive wall-clock part remains.
pub fn ignore_timezone(time: String) -> (r: String)
    ensures
        r@ == zone_stripped(time@),
{
    let cs = chars_of(time.as_str());
    let ghost nz: spec_fn(char) -> bool = |c: char| not_zulu(c);
    let mut out = String::new();
    let mut i: usize = 0;
    proof {
        assert(time@.take(0) =~= Seq::<char>::empty());
        assert(out@ =~= time@.take(0).filter(nz));
    }
    while i < cs.len()
        invariant
            0 <= i <= cs.len(),
            cs@ == time@,
            nz == (|c: char| not_zulu(c)),
            out@ == time@.take(i as int).filter(nz),
            forall|k: int| 0 <= k < i ==> time@[k] != '+',
        decreases cs.len() - i,
    {
        let c = cs[i];
        proof {
            assert(time@.take(i + 1) =~= time@.take(i as int).push(time@[i as int]));
            Seq::lemma_filter_push(time@.take(i as int), time@[i as int], nz);
        }
        if c == '+' {
            proof {
                lemma_no_plus_in_filter(time@.take(i as int), nz);
                assert(time@ =~= time@.take(i as int) + time@.skip(i as int));
                Seq::filter_distributes_over_add(
                    time@.take(i as int),
                    time@.skip(i as int),
                    nz,
                );
                assert(time@.skip(i as int)[0] == '+');
                assert(time@.skip(i as int).filter(nz).len() == 0 || time@.skip(
                    i as int,
                ).filter(nz)[0] == '+') by {
                    lemma_filter_head_plus(time@.skip(i as int), nz);
                }
                lemma_until_plus_clean(
                    time@.take(i as int).filter(nz),
                    time@.skip(i as int).filter(nz),
                );
            }
            return out;
        }
        if c != 'Z' {
            push_char(&mut out, c);
        }
        i = i + 1;
    }
    proof {
        assert(time@.take(time@.len() as int) =~= time@);
        lemma_no_plus_in_filter(time@, nz);
        assert(time@.filter(nz) + Seq::<char>::empty() =~= time@.filter(nz));
        lemma_until_plus_clean(time@.filter(nz), Seq::empty());
    }
    out
}

proof fn lemma_no_plus_in_filter(s: Seq<char>, p: spec_fn(char) -> bool)
    requires
        forall|k: int| 0 <= k < s.len() ==> s[k] != '+',
    ensures
        forall|k: int| 0 <= k < s.filter(p).len() ==> s.filter(p)[k] != '+',
{
    assert forall|k: int| 0 <= k < s.filter(p).len() implies s.filter(p)[k] != '+' by {
        Seq::lemma_filter_contains_rev(s, p, s.filter(p)[k]);
        let w = choose|w: int| 0 <= w < s.len() && s[w] == s.filter(p)[k];
    }
}

proof fn lemma_filter_head_plus(s: Seq<char>, p: spec_fn(char) -> bool)
    requires
        s.len() > 0,
        s[0] == '+',
        p('+'),
    ensures
        s.filter(p).len() > 0 && s.filter(p)[0] == '+',
    decreases s.len(),
{
    reveal(Seq::filter);
    if s.len() == 1 {
        assert(s.drop_last() =~= Seq::<char>::empty());
    } else {
        assert(s.drop_last()[0] == '+');
        lemma_filter_head_plus(s.drop_last(), p);
        if p(s.last()) {
            assert(s.filter(p) == s.drop_last().filter(p).push(s.last()));
        }
    }
}

} // verus!
