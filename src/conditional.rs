//! The `If-Unmodified-Since` header: apply the method only if the resource
//! has not been modified after the given time.
use vstd::prelude::*;
use vstd::std_specs::cmp::PartialOrdSpec;
use crate::error::Error;
use crate::headers::{if_unmodified_since_bytes, HeaderName, HeaderValue, Headers};
use crate::http_date::{date_of, fmt_http_date, imf_fixdate, lemma_date_of_valid, lemma_fixdate_ascii, lemma_http_date_round_trip, parse_imf_fixdate, parse_spec, MAX_SECS};
use crate::timestamp::{Timestamp, NANOS_PER_SEC};

verus! {

/// The HTTP-date text that stands for a time, to the whole second.
pub open spec fn http_date_text(t: Timestamp) -> Seq<u8> {
    imf_fixdate(date_of(t.secs as int))
}

/// What reading the header gives for the values stored under its name:
/// nothing where there are none; else the time that the last value stands
/// for, or a malformed-header error where it stands for none.
pub open spec fn read_instant(values: Option<Seq<Seq<u8>>>) -> Result<Option<Timestamp>, Error> {
    match values {
        None => Ok(None),
        Some(vs) => match parse_spec(vs.last()) {
            Some(s) => Ok(Some(Timestamp { secs: s as u64, nanos: 0 })),
            None => Err(Error::MalformedHeader),
        },
    }
}

/// `after` is `before` with the header for `t` stored: its one value is the
/// text of `t`, and the values under every other name are unchanged.
pub open spec fn applied(before: Headers, after: Headers, t: Timestamp) -> bool {
    &&& after.values_of(if_unmodified_since_bytes()) == Some(seq![http_date_text(t)])
    &&& forall|n: Seq<u8>|
        n != if_unmodified_since_bytes() ==> #[trigger] after.values_of(n) == before.values_of(n)
}

/// Applies the method only if the resource has not been modified after the
/// time it holds.
#[derive(Debug, Clone, Copy, PartialEq, Eq, Structural, Ord)]
pub struct IfUnmodifiedSince {
    instant: Timestamp,
}

impl View for IfUnmodifiedSince {
    type V = Timestamp;

    closed spec fn view(&self) -> Timestamp {
        self.instant
    }
}

/// The time that a result of `IfUnmodifiedSince::from_headers` holds.
pub open spec fn result_view(r: Result<Option<IfUnmodifiedSince>, Error>) -> Result<
    Option<Timestamp>,
    Error,
> {
    match r {
        Ok(Some(v)) => Ok(Some(v@)),
        Ok(None) => Ok(None),
        Err(e) => Err(e),
    }
}

impl IfUnmodifiedSince {
    /// A header that holds `instant`.
    pub fn new(instant: Timestamp) -> (r: IfUnmodifiedSince)
        ensures
            r@ == instant,
    {
        IfUnmodifiedSince { instant }
    }

    /// The last modification time listed.
    pub fn modified(&self) -> (r: Timestamp)
        ensures
            r == self@,
    {
        self.instant
    }

    /// Reads the header from a collection: `None` where the collection holds
    /// no value under its name; else the time that the last value stands
    /// for, or `Error::MalformedHeader` where it is not an HTTP-date.
    pub fn from_headers(headers: &Headers) -> (r: Result<Option<IfUnmodifiedSince>, Error>)
        requires
            headers.wf(),
        ensures
            result_view(r) == read_instant(headers.values_of(if_unmodified_since_bytes())),
    {
        let name = HeaderName::if_unmodified_since();
        let values = match headers.get(&name) {
            Some(values) => values,
            None => return Ok(None),
        };
        let n = values.len();
        let header = &values[n - 1];
        match parse_imf_fixdate(header.as_bytes()) {
            Some(secs) => Ok(Some(IfUnmodifiedSince { instant: Timestamp::from_secs(secs) })),
            None => Err(Error::MalformedHeader),
        }
    }

    /// Stores the header in a collection, in place of any values stored
    /// under its name before.
    pub fn apply(&self, headers: &mut Headers)
        requires
            old(headers).wf(),
            self@.secs < MAX_SECS,
        ensures
            final(headers).wf(),
            applied(*old(headers), *final(headers), self@),
    {
        headers.insert(self.name(), self.value());
    }

    /// The name of the header.
    pub fn name(&self) -> (r: HeaderName)
        ensures
            r@ == if_unmodified_since_bytes(),
    {
        HeaderName::if_unmodified_since()
    }

    /// The value of the header: the time as an HTTP-date, to the whole second.
    pub fn value(&self) -> (r: HeaderValue)
        requires
            self@.secs < MAX_SECS,
        ensures
            r@ == http_date_text(self@),
    {
        let output = fmt_http_date(self.instant.secs);
        proof {
            lemma_date_of_valid(self.instant.secs as int);
            lemma_fixdate_ascii(date_of(self.instant.secs as int));
        }
        HeaderValue::from_bytes(output).unwrap()
    }

    /// The values to store under the header's name: exactly one.
    pub fn to_header_values(&self) -> (r: Vec<HeaderValue>)
        requires
            self@.secs < MAX_SECS,
        ensures
            r@.len() == 1,
            r@[0]@ == http_date_text(self@),
    {
        let mut r: Vec<HeaderValue> = Vec::new();
        r.push(self.value());
        r
    }
}

impl PartialOrd for IfUnmodifiedSince {
    fn partial_cmp(&self, other: &IfUnmodifiedSince) -> (r: Option<core::cmp::Ordering>)
        ensures
            r == Some(self@.cmp_spec_of(other@)),
    {
        self.instant.partial_cmp(&other.instant)
    }
}

impl vstd::std_specs::cmp::PartialOrdSpecImpl for IfUnmodifiedSince {
    open spec fn obeys_partial_cmp_spec() -> bool {
        true
    }

    open spec fn partial_cmp_spec(&self, other: &IfUnmodifiedSince) -> Option<core::cmp::Ordering> {
        Some(self@.cmp_spec_of(other@))
    }
}

/// Storing the header for a time and reading it back gives that time cut
/// to the whole second, less than one second before the time itself.
pub proof fn lemma_apply_then_read(t: Timestamp, before: Headers, after: Headers)
    requires
        t.wf(),
        t.secs < MAX_SECS,
        applied(before, after, t),
    ensures
        read_instant(after.values_of(if_unmodified_since_bytes())) == Ok::<Option<Timestamp>, Error>(
            Some(Timestamp { secs: t.secs, nanos: 0 }),
        ),
        0 <= t.total_nanos() - (Timestamp { secs: t.secs, nanos: 0 }).total_nanos() < NANOS_PER_SEC,
{
    lemma_http_date_round_trip(t.secs as int);
    assert(seq![http_date_text(t)].last() == http_date_text(t));
}

/// Of several values stored under the header's name, only the last decides
/// what is read.
pub proof fn lemma_last_value_decides(vs1: Seq<Seq<u8>>, vs2: Seq<Seq<u8>>)
    requires
        vs1.len() > 0,
        vs2.len() > 0,
        vs1.last() == vs2.last(),
    ensures
        read_instant(Some(vs1)) == read_instant(Some(vs2)),
{
}

/// Storing the header twice leaves only the second time's text under its
/// name.
pub proof fn lemma_second_apply_wins(
    t1: Timestamp,
    t2: Timestamp,
    h0: Headers,
    h1: Headers,
    h2: Headers,
)
    requires
        applied(h0, h1, t1),
        applied(h1, h2, t2),
    ensures
        h2.values_of(if_unmodified_since_bytes()) == Some(seq![http_date_text(t2)]),
        forall|n: Seq<u8>|
            n != if_unmodified_since_bytes() ==> #[trigger] h2.values_of(n) == h0.values_of(n),
{
    assert forall|n: Seq<u8>| n != if_unmodified_since_bytes() implies #[trigger] h2.values_of(n)
        == h0.values_of(n) by {
        assert(h2.values_of(n) == h1.values_of(n));
        assert(h1.values_of(n) == h0.values_of(n));
    }
}

/// Headers built from an earlier and a later time compare as less.
pub proof fn lemma_order_follows_instant(a: IfUnmodifiedSince, b: IfUnmodifiedSince)
    requires
        a@.wf(),
        b@.wf(),
        a@.total_nanos() < b@.total_nanos(),
    ensures
        a.partial_cmp_spec(&b) == Some(core::cmp::Ordering::Less),
{
    crate::timestamp::lemma_order_is_by_total_nanos(a@, b@);
}

} // verus!
