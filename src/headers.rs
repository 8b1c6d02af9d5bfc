//! Header names, header values, and an ordered collection of headers that
//! maps each name to one or more values.
use vstd::prelude::*;
use vstd::string::StringSliceAdditionalSpecFns;

verus! {

/// Every byte is ASCII.
pub open spec fn is_ascii_bytes(b: Seq<u8>) -> bool {
    forall|i: int| 0 <= i < b.len() ==> #[trigger] b[i] < 128
}

/// The byte with an upper-case ASCII letter made lower case.
pub open spec fn lower_byte(b: u8) -> u8 {
    if 65 <= b <= 90 {
        (b + 32) as u8
    } else {
        b
    }
}

/// The bytes with every upper-case ASCII letter made lower case.
pub open spec fn lower_bytes(b: Seq<u8>) -> Seq<u8> {
    b.map_values(|c: u8| lower_byte(c))
}

fn is_ascii_exec(b: &[u8]) -> (r: bool)
    ensures
        r == is_ascii_bytes(b@),
{
    let mut i: usize = 0;
    while i < b.len()
        invariant
            i <= b@.len(),
            forall|j: int| 0 <= j < i ==> #[trigger] b@[j] < 128,
        decreases b@.len() - i,
    {
        if b[i] >= 128 {
            return false;
        }
        i = i + 1;
    }
    true
}

/// The name of a header: ASCII, held in lower case, since header names
/// compare without regard to case.
#[derive(Debug, Clone)]
pub struct HeaderName {
    bytes: Vec<u8>,
}

impl View for HeaderName {
    type V = Seq<u8>;

    closed spec fn view(&self) -> Seq<u8> {
        self.bytes@
    }
}

/// The bytes of `If-Unmodified-Since` in lower case.
pub open spec fn if_unmodified_since_bytes() -> Seq<u8> {
    seq![
        105, 102, 45, 117, 110, 109, 111, 100, 105, 102, 105, 101, 100, 45, 115, 105, 110, 99, 101
    ]
}

impl HeaderName {
    /// A header name from ASCII bytes, made lower case; `None` where a byte
    /// is not ASCII.
    pub fn from_bytes(bytes: &[u8]) -> (r: Option<HeaderName>)
        ensures
            r is Some <==> is_ascii_bytes(bytes@),
            r matches Some(n) ==> n@ == lower_bytes(bytes@),
    {
        if !is_ascii_exec(bytes) {
            return None;
        }
        let mut out: Vec<u8> = Vec::new();
        let mut i: usize = 0;
        while i < bytes.len()
            invariant
                i <= bytes@.len(),
                out@ == lower_bytes(bytes@.subrange(0, i as int)),
            decreases bytes@.len() - i,
        {
            let b = bytes[i];
            let l = if 65 <= b && b <= 90 {
                b + 32
            } else {
                b
            };
            out.push(l);
            assert(bytes@.subrange(0, i + 1) =~= bytes@.subrange(0, i as int).push(b));
            assert(lower_bytes(bytes@.subrange(0, i + 1)) =~= lower_bytes(
                bytes@.subrange(0, i as int),
            ).push(l));
            i = i + 1;
        }
        assert(bytes@.subrange(0, bytes@.len() as int) =~= bytes@);
        Some(HeaderName { bytes: out })
    }

    /// A header name from a string, made lower case; `None` where it is
    /// not ASCII.
    pub fn from_str(s: &str) -> (r: Option<HeaderName>)
        ensures
            r is Some <==> is_ascii_bytes(s.spec_bytes()),
            r matches Some(n) ==> n@ == lower_bytes(s.spec_bytes()),
    {
        HeaderName::from_bytes(s.as_bytes())
    }

    /// The name `if-unmodified-since`.
    pub fn if_unmodified_since() -> (r: HeaderName)
        ensures
            r@ == if_unmodified_since_bytes(),
    {
        let bytes = vec![
            105, 102, 45, 117, 110, 109, 111, 100, 105, 102, 105, 101, 100, 45, 115, 105, 110, 99,
            101
        ];
        assert(bytes@ =~= if_unmodified_since_bytes());
        HeaderName { bytes }
    }

    /// The bytes of the name, in lower case.
    pub fn as_bytes(&self) -> (r: &[u8])
        ensures
            r@ == self@,
    {
        self.bytes.as_slice()
    }

    /// Whether two names are the same.
    pub fn same_as(&self, other: &HeaderName) -> (r: bool)
        ensures
            r == (self@ == other@),
    {
        if self.bytes.len() != other.bytes.len() {
            return false;
        }
        let mut i: usize = 0;
        while i < self.bytes.len()
            invariant
                self@.len() == other@.len(),
                i <= self@.len(),
                forall|j: int| 0 <= j < i ==> self@[j] == other@[j],
            decreases self@.len() - i,
        {
            if self.bytes[i] != other.bytes[i] {
                assert(self@[i as int] != other@[i as int]);
                return false;
            }
            i = i + 1;
        }
        assert(self@ =~= other@);
        true
    }
}

/// The value of a header: ASCII bytes.
#[derive(Debug, Clone)]
pub struct HeaderValue {
    bytes: Vec<u8>,
}

impl View for HeaderValue {
    type V = Seq<u8>;

    closed spec fn view(&self) -> Seq<u8> {
        self.bytes@
    }
}

impl HeaderValue {
    /// A header value from bytes; `None` where a byte is not ASCII.
    pub fn from_bytes(bytes: Vec<u8>) -> (r: Option<HeaderValue>)
        ensures
            r is Some <==> is_ascii_bytes(bytes@),
            r matches Some(v) ==> v@ == bytes@,
    {
        if is_ascii_exec(bytes.as_slice()) {
            Some(HeaderValue { bytes })
        } else {
            None
        }
    }

    /// A header value from a string; `None` where it is not ASCII.
    pub fn from_str(s: &str) -> (r: Option<HeaderValue>)
        ensures
            r is Some <==> is_ascii_bytes(s.spec_bytes()),
            r matches Some(v) ==> v@ == s.spec_bytes(),
    {
        HeaderValue::from_bytes(vstd::slice::slice_to_vec(s.as_bytes()))
    }

    /// The bytes of the value.
    pub fn as_bytes(&self) -> (r: &[u8])
        ensures
            r@ == self@,
    {
        self.bytes.as_slice()
    }
}

/// The values stored under `name` in an ordered list of (name, values)
/// entries, or `None` where no entry has that name.
pub open spec fn lookup(entries: Seq<(Seq<u8>, Seq<Seq<u8>>)>, name: Seq<u8>) -> Option<
    Seq<Seq<u8>>,
> {
    if exists|i: int| 0 <= i < entries.len() && #[trigger] entries[i].0 == name {
        let i = choose|i: int| 0 <= i < entries.len() && #[trigger] entries[i].0 == name;
        Some(entries[i].1)
    } else {
        None
    }
}

/// No two entries share a name, and each entry holds at least one value.
pub open spec fn entries_wf(entries: Seq<(Seq<u8>, Seq<Seq<u8>>)>) -> bool {
    &&& forall|i: int, j: int|
        0 <= i < entries.len() && 0 <= j < entries.len() && i != j ==> #[trigger] entries[i].0
            != #[trigger] entries[j].0
    &&& forall|i: int| 0 <= i < entries.len() ==> #[trigger] entries[i].1.len() > 0
}

/// The views of a list of header values.
pub open spec fn values_view(vs: Seq<HeaderValue>) -> Seq<Seq<u8>> {
    vs.map_values(|v: HeaderValue| v@)
}

/// In well-formed entries, the entry at `i` is the one that `lookup` finds.
proof fn lemma_lookup_at(entries: Seq<(Seq<u8>, Seq<Seq<u8>>)>, i: int)
    requires
        entries_wf(entries),
        0 <= i < entries.len(),
    ensures
        lookup(entries, entries[i].0) == Some(entries[i].1),
{
    assert(0 <= i < entries.len() && entries[i].0 == entries[i].0);
}

/// A collection of headers: each name, in the order in which it was first
/// stored, with its values in the order in which they were stored.
#[derive(Debug)]
pub struct Headers {
    entries: Vec<(HeaderName, Vec<HeaderValue>)>,
}

impl View for Headers {
    type V = Seq<(Seq<u8>, Seq<Seq<u8>>)>;

    closed spec fn view(&self) -> Seq<(Seq<u8>, Seq<Seq<u8>>)> {
        self.entries@.map_values(|e: (HeaderName, Vec<HeaderValue>)| (e.0@, values_view(e.1@)))
    }
}

impl Headers {
    /// No two entries share a name, and each holds at least one value.
    pub open spec fn wf(&self) -> bool {
        entries_wf(self@)
    }

    /// The values stored under `name`, oldest first.
    pub open spec fn values_of(&self, name: Seq<u8>) -> Option<Seq<Seq<u8>>> {
        lookup(self@, name)
    }

    /// An empty collection.
    pub fn new() -> (r: Headers)
        ensures
            r.wf(),
            r@ == Seq::<(Seq<u8>, Seq<Seq<u8>>)>::empty(),
            forall|n: Seq<u8>| r.values_of(n) is None,
    {
        let r = Headers { entries: Vec::new() };
        assert(r@ =~= Seq::<(Seq<u8>, Seq<Seq<u8>>)>::empty());
        r
    }

    /// The index of the entry named `name`, if any.
    fn find(&self, name: &HeaderName) -> (r: Option<usize>)
        requires
            self.wf(),
        ensures
            match r {
                Some(i) => i < self@.len() && self@[i as int].0 == name@,
                None => forall|i: int| 0 <= i < self@.len() ==> #[trigger] self@[i].0 != name@,
            },
    {
        let mut i: usize = 0;
        while i < self.entries.len()
            invariant
                i <= self@.len(),
                self@.len() == self.entries@.len(),
                forall|j: int| 0 <= j < i ==> #[trigger] self@[j].0 != name@,
            decreases self@.len() - i,
        {
            if self.entries[i].0.same_as(name) {
                return Some(i);
            }
            i = i + 1;
        }
        None
    }

    /// The values stored under `name`, oldest first, or `None` where there
    /// are none.
    pub fn get(&self, name: &HeaderName) -> (r: Option<&Vec<HeaderValue>>)
        requires
            self.wf(),
        ensures
            match r {
                Some(vs) => self.values_of(name@) == Some(values_view(vs@)) && vs@.len() > 0,
                None => self.values_of(name@) is None,
            },
    {
        match self.find(name) {
            Some(i) => {
                proof {
                    lemma_lookup_at(self@, i as int);
                    assert(self@[i as int].1.len() > 0);
                }
                Some(&self.entries[i].1)
            },
            None => None,
        }
    }

    /// Stores `value` as the only value under `name`, in place of any values
    /// stored there before.
    pub fn insert(&mut self, name: HeaderName, value: HeaderValue)
        requires
            old(self).wf(),
        ensures
            final(self).wf(),
            final(self).values_of(name@) == Some(seq![value@]),
            forall|n: Seq<u8>| n != name@ ==> final(self).values_of(n) == old(self).values_of(n),
    {
        let ghost old_view = self@;
        let ghost nm = name@;
        let mut values: Vec<HeaderValue> = Vec::new();
        values.push(value);
        assert(values_view(values@) =~= seq![value@]);
        match self.find(&name) {
            Some(i) => {
                self.entries.set(i, (name, values));
                assert(self@ =~= old_view.update(i as int, (nm, seq![value@])));
                proof {
                    lemma_replace_entry(old_view, self@, i as int);
                }
            },
            None => {
                self.entries.push((name, values));
                assert(self@ =~= old_view.push((nm, seq![value@])));
                proof {
                    lemma_replace_entry(old_view, self@, old_view.len() as int);
                }
            },
        }
    }

    /// Stores `value` under `name` after the values stored there before.
    pub fn append(&mut self, name: HeaderName, value: HeaderValue)
        requires
            old(self).wf(),
        ensures
            final(self).wf(),
            final(self).values_of(name@) == Some(
                match old(self).values_of(name@) {
                    Some(vs) => vs.push(value@),
                    None => seq![value@],
                },
            ),
            forall|n: Seq<u8>| n != name@ ==> final(self).values_of(n) == old(self).values_of(n),
    {
        let ghost old_view = self@;
        let ghost nm = name@;
        match self.find(&name) {
            Some(i) => {
                proof {
                    lemma_lookup_at(old_view, i as int);
                }
                let ghost vs = old_view[i as int].1;
                let mut values: Vec<HeaderValue> = Vec::new();
                std::mem::swap(&mut values, &mut self.entries[i].1);
                values.push(value);
                assert(values_view(values@) =~= vs.push(value@));
                self.entries.set(i, (name, values));
                assert(self@ =~= old_view.update(i as int, (nm, vs.push(value@))));
                proof {
                    lemma_replace_entry(old_view, self@, i as int);
                }
            },
            None => {
                let mut values: Vec<HeaderValue> = Vec::new();
                values.push(value);
                assert(values_view(values@) =~= seq![value@]);
                self.entries.push((name, values));
                assert(self@ =~= old_view.push((nm, seq![value@])));
                proof {
                    lemma_replace_entry(old_view, self@, old_view.len() as int);
                }
            },
        }
    }

}

/// Replacing entry `k` by one with the same name, or adding it at the end
/// under a new name, keeps the entries well formed, makes `lookup` find the
/// new entry, and leaves the lookup of every other name as it was.
proof fn lemma_replace_entry(
    old_entries: Seq<(Seq<u8>, Seq<Seq<u8>>)>,
    new_entries: Seq<(Seq<u8>, Seq<Seq<u8>>)>,
    k: int,
)
    requires
        entries_wf(old_entries),
        0 <= k < new_entries.len(),
        new_entries[k].1.len() > 0,
        (k < old_entries.len() && new_entries.len() == old_entries.len() && old_entries[k].0
            == new_entries[k].0) || (k == old_entries.len() && new_entries.len()
            == old_entries.len() + 1 && forall|i: int|
            0 <= i < old_entries.len() ==> #[trigger] old_entries[i].0 != new_entries[k].0),
        forall|i: int|
            0 <= i < old_entries.len() && i != k ==> #[trigger] new_entries[i] == old_entries[i],
    ensures
        entries_wf(new_entries),
        lookup(new_entries, new_entries[k].0) == Some(new_entries[k].1),
        forall|n: Seq<u8>|
            n != new_entries[k].0 ==> #[trigger] lookup(new_entries, n) == lookup(old_entries, n),
{
    let name = new_entries[k].0;
    assert forall|i: int| 0 <= i < old_entries.len() implies #[trigger] new_entries[i].0
        == old_entries[i].0 by {
        if i != k {
            assert(new_entries[i] == old_entries[i]);
        }
    }
    assert forall|i: int, j: int|
        0 <= i < new_entries.len() && 0 <= j < new_entries.len() && i != j implies #[trigger] new_entries[i].0
        != #[trigger] new_entries[j].0 by {
        if i < old_entries.len() && j < old_entries.len() {
            assert(old_entries[i].0 != old_entries[j].0);
        } else if i < old_entries.len() {
            assert(old_entries[i].0 != name);
        } else {
            assert(old_entries[j].0 != name);
        }
    }
    assert forall|i: int| 0 <= i < new_entries.len() implies #[trigger] new_entries[i].1.len()
        > 0 by {
        if i != k {
            assert(new_entries[i] == old_entries[i]);
        }
    }
    lemma_lookup_at(new_entries, k);
    assert forall|n: Seq<u8>| n != name implies #[trigger] lookup(new_entries, n) == lookup(
        old_entries,
        n,
    ) by {
        if exists|i: int| 0 <= i < old_entries.len() && #[trigger] old_entries[i].0 == n {
            let i = choose|i: int| 0 <= i < old_entries.len() && #[trigger] old_entries[i].0 == n;
            assert(i != k);
            assert(new_entries[i] == old_entries[i]);
            lemma_lookup_at(old_entries, i);
            lemma_lookup_at(new_entries, i);
        } else {
            assert forall|i: int| 0 <= i < new_entries.len() implies #[trigger] new_entries[i].0
                != n by {
                if i != k {
                    assert(new_entries[i] == old_entries[i]);
                }
            }
        }
    }
}

} // verus!
