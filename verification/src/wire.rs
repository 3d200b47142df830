//! The wire codec: line framing, headline and header-block parsing and
//! construction.
//!
//! A line ends at the first line-feed byte; the byte before the
//! line-feed is taken for the carriage return of the `CRLF` terminator
//! and stripped with it.  A buffer that holds no complete line is
//! incomplete input and reads as an `IO` error.
use vstd::prelude::*;
use crate::bytes::{spec_lower, lower, bytes_eq, subvec, append_bytes, spec_find, find_byte, lemma_find_props};
use crate::tokens::{ParsingError, ToHeader, spec_parse_list};

verus! {

/// The two-byte line terminator.
pub open spec fn spec_crlf() -> Seq<u8> {
    seq![13u8, 10u8]
}

/// The header cap: reading the header block stops once the accumulated
/// headline-and-header text passes this many bytes.
pub open spec fn spec_header_cap() -> int {
    10000
}

/// One line read from `pos`: its content without the two terminator
/// bytes, and the position after it.  `None` when the buffer holds no
/// complete line at `pos`, or the line is shorter than its terminator.
pub open spec fn spec_read_line(input: Seq<u8>, pos: int) -> Option<(Seq<u8>, int)> {
    let j = spec_find(input, pos, 10);
    if j < pos + 1 {
        None
    } else {
        Some((input.subrange(pos, j - 1), j + 1))
    }
}

/// Reads one terminated line at `pos`; incomplete input is an `IO`
/// error.
pub fn read_line(input: &Vec<u8>, pos: usize) -> (r: Result<(Vec<u8>, usize), ParsingError>)
    requires
        pos <= input@.len(),
    ensures
        match r {
            Ok(p) => spec_read_line(input@, pos as int) == Some((p.0@, p.1 as int))
                && pos + 2 <= p.1 <= input@.len()
                && p.0@ == input@.subrange(pos as int, p.1 - 2)
                && p.0@.len() + 2 == p.1 - pos,
            Err(e) => e == ParsingError::IO && spec_read_line(input@, pos as int) == None::<(Seq<u8>, int)>,
        },
{
    let len = input.len();
    match find_byte(input, pos, 10) {
        Some(j) => {
            proof {
                assert(j < len);
            }
            if j <= pos {
                Err(ParsingError::IO)
            } else {
                let line = subvec(input, pos, j - 1);
                Ok((line, j + 1))
            }
        },
        None => {
            proof {
                lemma_find_props(input@, pos as int, 10);
            }
            Err(ParsingError::IO)
        },
    }
}

/// Exactly `size` bytes at `pos`: `None` when the buffer is shorter.
pub open spec fn spec_read_exact(input: Seq<u8>, pos: int, size: int) -> Option<(Seq<u8>, int)> {
    if pos + size <= input.len() {
        Some((input.subrange(pos, pos + size), pos + size))
    } else {
        None
    }
}

/// Reads exactly `size` bytes at `pos`; a shorter buffer is an `IO`
/// error.
pub fn read_exact(input: &Vec<u8>, pos: usize, size: usize) -> (r: Result<(Vec<u8>, usize), ParsingError>)
    requires
        pos <= input@.len(),
    ensures
        match r {
            Ok(p) => spec_read_exact(input@, pos as int, size as int) == Some((p.0@, p.1 as int))
                && p.1 == pos + size
                && p.0@ == input@.subrange(pos as int, pos + size),
            Err(e) => e == ParsingError::IO
                && spec_read_exact(input@, pos as int, size as int) == None::<(Seq<u8>, int)>,
        },
{
    if size <= input.len() - pos {
        let bytes = subvec(input, pos, pos + size);
        Ok((bytes, pos + size))
    } else {
        Err(ParsingError::IO)
    }
}

/// The first line of a message, split into its three fields: two
/// space-delimited tokens and the verbatim remainder of the line.
pub struct Headline(pub Vec<u8>, pub Vec<u8>, pub Vec<u8>);

/// Splits a headline into its three fields: the first two end at the
/// first two space bytes, the third is the remainder verbatim.  A line
/// without a second space, or with nothing after it, has no fields.
pub open spec fn spec_split_headline(line: Seq<u8>) -> Option<(Seq<u8>, Seq<u8>, Seq<u8>)> {
    let i = spec_find(line, 0, 32);
    if i < 0 {
        None
    } else {
        let j = spec_find(line, i + 1, 32);
        if j < 0 {
            None
        } else {
            let third = line.subrange(j + 1, line.len() as int);
            if third.len() == 0 {
                None
            } else {
                Some((line.subrange(0, i), line.subrange(i + 1, j), third))
            }
        }
    }
}

/// Headline parsing at `pos`: the three fields and the position after
/// the line.  Incomplete input reads as `IO`, a malformed line as
/// `Head`.
pub open spec fn spec_parse_headline(input: Seq<u8>, pos: int) -> Result<(Seq<u8>, Seq<u8>, Seq<u8>, int), ParsingError> {
    match spec_read_line(input, pos) {
        None => Err(ParsingError::IO),
        Some((line, p2)) => match spec_split_headline(line) {
            None => Err(ParsingError::Head),
            Some((a, b, c)) => Ok((a, b, c, p2)),
        },
    }
}

/// A headline rendered back to wire bytes.
pub open spec fn spec_construct_headline(a: Seq<u8>, b: Seq<u8>, c: Seq<u8>) -> Seq<u8> {
    a + seq![32u8] + b + seq![32u8] + c + spec_crlf()
}

impl Headline {
    /// Reads one line at `pos` and splits it into the three headline
    /// fields; a missing second field or empty third field is fatal.
    pub fn parse(input: &Vec<u8>, pos: usize) -> (r: Result<(Headline, usize), ParsingError>)
        requires
            pos <= input@.len(),
        ensures
            match r {
                Ok(p) => spec_parse_headline(input@, pos as int) == Ok::<_, ParsingError>((p.0.0@, p.0.1@, p.0.2@, p.1 as int))
                    && pos + 2 <= p.1 <= input@.len(),
                Err(e) => spec_parse_headline(input@, pos as int) == Err::<(Seq<u8>, Seq<u8>, Seq<u8>, int), _>(e),
            },
    {
        let (line, p2) = match read_line(input, pos) {
            Ok(p) => p,
            Err(e) => {
                return Err(e);
            },
        };
        proof {
            lemma_find_props(line@, 0, 32);
        }
        let i = match find_byte(&line, 0, 32) {
            Some(i) => i,
            None => {
                return Err(ParsingError::Head);
            },
        };
        proof {
            lemma_find_props(line@, i + 1, 32);
        }
        let j = match find_byte(&line, i + 1, 32) {
            Some(j) => j,
            None => {
                return Err(ParsingError::Head);
            },
        };
        if j + 1 >= line.len() {
            return Err(ParsingError::Head);
        }
        let first = subvec(&line, 0, i);
        let second = subvec(&line, i + 1, j);
        let third = subvec(&line, j + 1, line.len());
        Ok((Headline(first, second, third), p2))
    }

    /// Renders a headline: the three fields joined by single spaces,
    /// then the line terminator.
    pub fn construct(first: &Vec<u8>, second: &Vec<u8>, third: &Vec<u8>) -> (r: Vec<u8>)
        ensures
            r@ == spec_construct_headline(first@, second@, third@),
    {
        let mut out: Vec<u8> = Vec::new();
        append_bytes(&mut out, first);
        out.push(32u8);
        append_bytes(&mut out, second);
        out.push(32u8);
        append_bytes(&mut out, third);
        out.push(13u8);
        out.push(10u8);
        proof {
            assert(out@ =~= spec_construct_headline(first@, second@, third@));
        }
        out
    }
}

/// One header: a name and a value; the name compares
/// case-insensitively, the value keeps its original text.
pub struct Header {
    pub name: Vec<u8>,
    pub value: Vec<u8>,
}

/// A name/value pair as the specification sees it.
pub type HeaderPair = (Seq<u8>, Seq<u8>);

/// Drops leading space and horizontal-tab bytes.
pub open spec fn spec_trim_start(s: Seq<u8>) -> Seq<u8>
    decreases s.len(),
{
    if s.len() > 0 && (s.first() == 32 || s.first() == 9) {
        spec_trim_start(s.drop_first())
    } else {
        s
    }
}

/// Splits a header line at its first colon; the value is what follows,
/// less leading whitespace.  A line without a colon, or with the colon
/// last, is no header (and is skipped by the block parser).
pub open spec fn spec_parse_header_line(line: Seq<u8>) -> Option<HeaderPair> {
    let c = spec_find(line, 0, 58);
    if c < 0 || c >= line.len() - 1 {
        None
    } else {
        Some((line.subrange(0, c), spec_trim_start(line.subrange(c + 1, line.len() as int))))
    }
}

/// One header rendered back to wire bytes, without the terminator.
pub open spec fn spec_construct_header(h: HeaderPair) -> Seq<u8> {
    h.0 + seq![58u8, 32u8] + h.1
}

impl Header {
    /// Packs a name and a value.
    pub fn new(name: Vec<u8>, value: Vec<u8>) -> (r: Header)
        ensures
            r.name@ == name@,
            r.value@ == value@,
    {
        Header { name, value }
    }

    /// One value rendered under its type's normalized header name.
    pub fn from<T: ToHeader>(to_header: T) -> (r: Header)
        ensures
            r.name@ == T::spec_normalized(),
            r.value@ == to_header.spec_value(),
    {
        Header { name: T::normalized(), value: to_header.value() }
    }

    /// Many values rendered as one delimiter-joined header line under
    /// the type's normalized name.
    pub fn from_many<T: ToHeader>(to_headers: &Vec<T>) -> (r: Header)
        ensures
            r.name@ == T::spec_normalized(),
            r.value@ == spec_join_values::<T>(to_headers@),
    {
        let mut value: Vec<u8> = Vec::new();
        let mut i: usize = 0;
        while i < to_headers.len()
            invariant
                i <= to_headers@.len(),
                value@ == spec_join_values::<T>(to_headers@.take(i as int)),
            decreases to_headers.len() - i,
        {
            if i > 0 {
                value.push(44u8);
            }
            let tok = to_headers[i].value();
            append_bytes(&mut value, &tok);
            proof {
                lemma_join_values_snoc::<T>(to_headers@.take(i as int), to_headers@[i as int]);
                assert(to_headers@.take(i + 1) =~= to_headers@.take(i as int).push(to_headers@[i as int]));
            }
            i = i + 1;
        }
        proof {
            assert(to_headers@.take(to_headers@.len() as int) =~= to_headers@);
        }
        Header { name: T::normalized(), value }
    }

    /// Splits one header line at its first colon; `None` means the line
    /// is not a header and is skipped.
    pub fn parse(header: &Vec<u8>) -> (r: Option<Header>)
        ensures
            match r {
                Some(h) => spec_parse_header_line(header@) == Some((h.name@, h.value@)),
                None => spec_parse_header_line(header@) == None::<HeaderPair>,
            },
    {
        proof {
            lemma_find_props(header@, 0, 58);
        }
        let n = header.len();
        let c = match find_byte(header, 0, 58) {
            Some(c) => c,
            None => {
                return None;
            },
        };
        if c + 1 >= n {
            return None;
        }
        let name = subvec(header, 0, c);
        let mut start: usize = c + 1;
        while start < header.len() && (header[start] == 32 || header[start] == 9)
            invariant
                c + 1 <= start <= header@.len(),
                spec_trim_start(header@.subrange(c + 1, header@.len() as int))
                    == spec_trim_start(header@.subrange(start as int, header@.len() as int)),
            decreases header.len() - start,
        {
            proof {
                assert(header@.subrange(start as int, header@.len() as int).drop_first()
                    =~= header@.subrange(start + 1, header@.len() as int));
            }
            start = start + 1;
        }
        let value = subvec(header, start, header.len());
        proof {
            assert(spec_trim_start(header@.subrange(start as int, header@.len() as int)) == value@);
        }
        Some(Header { name, value })
    }

    /// Renders this header as `Name: Value`, without the terminator.
    pub fn construct(&self) -> (r: Vec<u8>)
        ensures
            r@ == spec_construct_header((self.name@, self.value@)),
    {
        let mut out: Vec<u8> = Vec::new();
        append_bytes(&mut out, &self.name);
        out.push(58u8);
        out.push(32u8);
        append_bytes(&mut out, &self.value);
        proof {
            assert(out@ =~= spec_construct_header((self.name@, self.value@)));
        }
        out
    }
}

/// The values of `ts` joined by the list delimiter.
pub open spec fn spec_join_values<T: ToHeader>(ts: Seq<T>) -> Seq<u8>
    decreases ts.len(),
{
    if ts.len() == 0 {
        Seq::empty()
    } else if ts.len() == 1 {
        ts.last().spec_value()
    } else {
        spec_join_values::<T>(ts.drop_last()) + seq![44u8] + ts.last().spec_value()
    }
}

/// Appending one value extends the joined text by a delimiter and the
/// value's token.
proof fn lemma_join_values_snoc<T: ToHeader>(ts: Seq<T>, t: T)
    ensures
        ts.len() == 0 ==> spec_join_values::<T>(ts.push(t)) == t.spec_value(),
        ts.len() > 0 ==> spec_join_values::<T>(ts.push(t))
            == spec_join_values::<T>(ts) + seq![44u8] + t.spec_value(),
{
    assert(ts.push(t).drop_last() =~= ts);
    assert(ts.push(t).last() == t);
    if ts.len() == 0 {
        assert(spec_join_values::<T>(ts.push(t)) == t.spec_value());
    }
}

/// The header store: at most one header per normalized (lower-cased)
/// name; a later addition under the same name replaces the earlier one
/// in place.
pub struct Headers {
    items: Vec<Header>,
}

/// First index in `hs`, from `i` on, whose lower-cased name is `lname`;
/// `-1` when there is none.
pub open spec fn spec_find_name(hs: Seq<HeaderPair>, lname: Seq<u8>, i: int) -> int
    decreases hs.len() - i,
{
    if i < 0 || i >= hs.len() {
        -1
    } else if spec_lower(hs[i].0) == lname {
        i
    } else {
        spec_find_name(hs, lname, i + 1)
    }
}

/// Adding to the store: a header whose lower-cased name is already
/// present replaces that entry in place; otherwise it is appended.
pub open spec fn spec_store_add(hs: Seq<HeaderPair>, h: HeaderPair) -> Seq<HeaderPair> {
    let i = spec_find_name(hs, spec_lower(h.0), 0);
    if 0 <= i < hs.len() {
        hs.update(i, h)
    } else {
        hs.push(h)
    }
}

/// Lookup by normalized (lower-case) name: the value of the one header
/// whose lower-cased name equals the key.
pub open spec fn spec_store_get(hs: Seq<HeaderPair>, key: Seq<u8>) -> Option<Seq<u8>> {
    let i = spec_find_name(hs, key, 0);
    if 0 <= i < hs.len() {
        Some(hs[i].1)
    } else {
        None
    }
}

/// Store well-formedness: lower-cased names are pairwise distinct.
pub open spec fn spec_store_wf(hs: Seq<HeaderPair>) -> bool {
    forall|i: int, j: int| 0 <= i < j < hs.len() ==> spec_lower(hs[i].0) != spec_lower(hs[j].0)
}

/// What `spec_find_name` returns: the first hit, or `-1` with no hit.
pub proof fn lemma_find_name_props(hs: Seq<HeaderPair>, lname: Seq<u8>, i: int)
    requires
        0 <= i <= hs.len(),
    ensures
        spec_find_name(hs, lname, i) == -1 ==> forall|k: int| i <= k < hs.len() ==> spec_lower(hs[k].0) != lname,
        spec_find_name(hs, lname, i) != -1 ==> i <= spec_find_name(hs, lname, i) < hs.len()
            && spec_lower(hs[spec_find_name(hs, lname, i)].0) == lname
            && (forall|k: int| i <= k < spec_find_name(hs, lname, i) ==> spec_lower(hs[k].0) != lname),
    decreases hs.len() - i,
{
    if i < hs.len() && spec_lower(hs[i].0) != lname {
        lemma_find_name_props(hs, lname, i + 1);
    }
}

/// `spec_find_name` is determined by the first-hit description.
pub proof fn lemma_find_name_unique(hs: Seq<HeaderPair>, lname: Seq<u8>, j: int)
    requires
        0 <= j < hs.len(),
        spec_lower(hs[j].0) == lname,
        forall|k: int| 0 <= k < j ==> spec_lower(hs[k].0) != lname,
    ensures
        spec_find_name(hs, lname, 0) == j,
{
    lemma_find_name_props(hs, lname, 0);
    let f = spec_find_name(hs, lname, 0);
    if f == -1 {
        assert(spec_lower(hs[j].0) != lname);
    } else if f < j {
        assert(spec_lower(hs[f].0) != lname);
    } else if f > j {
        assert(spec_lower(hs[j].0) != lname);
    }
}

impl View for Headers {
    type V = Seq<HeaderPair>;

    closed spec fn view(&self) -> Seq<HeaderPair> {
        Seq::new(self.items@.len(), |i: int| (self.items@[i].name@, self.items@[i].value@))
    }
}

impl Headers {
    /// Store well-formedness: lower-cased names pairwise distinct.
    pub open spec fn wf(&self) -> bool {
        spec_store_wf(self@)
    }

    /// An empty store.
    pub fn new() -> (r: Headers)
        ensures
            r@ == Seq::<HeaderPair>::empty(),
            r.wf(),
    {
        let r = Headers { items: Vec::new() };
        proof {
            assert(r@ =~= Seq::<HeaderPair>::empty());
        }
        r
    }

    /// How many headers the store holds.
    pub fn len(&self) -> (r: usize)
        ensures
            r == self@.len(),
    {
        self.items.len()
    }

    /// The stored headers, in storage order.
    pub fn list(&self) -> (r: &Vec<Header>)
        ensures
            r@.len() == self@.len(),
            forall|i: int| 0 <= i < r@.len() ==> (r@[i].name@, r@[i].value@) == self@[i],
    {
        &self.items
    }

    /// Adds one header; an existing header of the same lower-cased name
    /// is replaced in place (last write wins).
    #[verifier::loop_isolation(false)]
    pub fn add(&mut self, header: Header)
        requires
            old(self).wf(),
        ensures
            final(self)@ == spec_store_add(old(self)@, (header.name@, header.value@)),
            final(self).wf(),
    {
        let ghost hs = self@;
        let ghost h = (header.name@, header.value@);
        let lname = lower(&header.name);
        let mut i: usize = 0;
        while i < self.items.len()
            invariant
                i <= self.items@.len(),
                hs == self@,
                self.items@.len() == hs.len(),
                lname@ == spec_lower(h.0),
                forall|k: int| 0 <= k < i ==> spec_lower(hs[k].0) != lname@,
                forall|k: int| 0 <= k < hs.len() ==> hs[k] == (self.items@[k].name@, self.items@[k].value@),
            decreases self.items.len() - i,
        {
            let ln = lower(&self.items[i].name);
            if bytes_eq(&ln, &lname) {
                proof {
                    lemma_find_name_unique(hs, lname@, i as int);
                }
                let ghost items0 = self.items@;
                self.items.remove(i);
                self.items.insert(i, header);
                proof {
                    assert(self.items@ =~= items0.update(i as int, header));
                    assert forall|k: int| 0 <= k < self@.len() implies self@[k] == hs.update(
                        i as int,
                        h,
                    )[k] by {
                        assert(hs[k] == (items0[k].name@, items0[k].value@));
                        assert(self@[k] == (self.items@[k].name@, self.items@[k].value@));
                        if k != i {
                            assert(self.items@[k] == items0[k]);
                            assert(hs.update(i as int, h)[k] == hs[k]);
                        } else {
                            assert(self.items@[k] == header);
                            assert(hs.update(i as int, h)[k] == h);
                        }
                    }
                    assert(self@ =~= hs.update(i as int, h));
                    assert(spec_store_add(hs, h) == hs.update(i as int, h));
                    assert forall|a: int, b: int| 0 <= a < b < self@.len() implies spec_lower(self@[a].0) != spec_lower(self@[b].0) by {
                        assert(spec_lower(hs[i as int].0) == lname@);
                        if a != i && b != i {
                            assert(self@[a] == hs[a] && self@[b] == hs[b]);
                        }
                    }
                }
                return;
            }
            i = i + 1;
        }
        proof {
            lemma_find_name_props(hs, lname@, 0);
            if spec_find_name(hs, lname@, 0) != -1 {
                assert(spec_lower(hs[spec_find_name(hs, lname@, 0)].0) == lname@);
            }
        }
        self.items.push(header);
        proof {
            assert(self@ =~= hs.push(h));
            assert(spec_store_add(hs, h) == hs.push(h));
            assert forall|a: int, b: int| 0 <= a < b < self@.len() implies spec_lower(self@[a].0) != spec_lower(self@[b].0) by {
                if b < hs.len() {
                    assert(self@[a] == hs[a] && self@[b] == hs[b]);
                } else {
                    assert(self@[b] == h && self@[a] == hs[a]);
                    assert(spec_lower(hs[a].0) != lname@);
                }
            }
        }
    }

    /// Looks a header up under its normalized (lower-case) name.
    pub fn get(&self, normalized: &Vec<u8>) -> (r: Option<&Vec<u8>>)
        ensures
            match r {
                Some(v) => spec_store_get(self@, normalized@) == Some(v@),
                None => spec_store_get(self@, normalized@) == None::<Seq<u8>>,
            },
    {
        let ghost hs = self@;
        let mut i: usize = 0;
        while i < self.items.len()
            invariant
                i <= self.items@.len(),
                hs == self@,
                self.items@.len() == hs.len(),
                forall|k: int| 0 <= k < i ==> spec_lower(hs[k].0) != normalized@,
                forall|k: int| 0 <= k < hs.len() ==> hs[k] == (self.items@[k].name@, self.items@[k].value@),
            decreases self.items.len() - i,
        {
            let ln = lower(&self.items[i].name);
            if bytes_eq(&ln, normalized) {
                proof {
                    lemma_find_name_unique(hs, normalized@, i as int);
                }
                return Some(&self.items[i].value);
            }
            i = i + 1;
        }
        proof {
            lemma_find_name_props(hs, normalized@, 0);
            if spec_find_name(hs, normalized@, 0) != -1 {
                assert(spec_lower(hs[spec_find_name(hs, normalized@, 0)].0) == normalized@);
            }
        }
        None
    }

    /// Whether the store holds exactly this value (compared lower-case)
    /// under the type's normalized name.
    pub fn have<T: ToHeader>(&self, to_header: T) -> (r: bool)
        ensures
            r == match spec_store_get(self@, T::spec_normalized()) {
                Some(v) => spec_lower(v) == to_header.spec_value(),
                None => false,
            },
    {
        let key = T::normalized();
        match self.get(&key) {
            Some(v) => {
                let lv = lower(v);
                let want = to_header.value();
                bytes_eq(&lv, &want)
            },
            None => false,
        }
    }

    /// Renders every stored header as a terminated line, in storage
    /// order.
    pub fn construct(&self) -> (r: Vec<u8>)
        ensures
            r@ == spec_construct_headers(self@),
    {
        let ghost hs = self@;
        let mut out: Vec<u8> = Vec::new();
        let mut i: usize = 0;
        proof {
            assert(hs.take(0) =~= Seq::<HeaderPair>::empty());
        }
        while i < self.items.len()
            invariant
                i <= self.items@.len(),
                hs == self@,
                self.items@.len() == hs.len(),
                forall|k: int| 0 <= k < hs.len() ==> hs[k] == (self.items@[k].name@, self.items@[k].value@),
                out@ == spec_construct_headers(hs.take(i as int)),
            decreases self.items.len() - i,
        {
            let row = self.items[i].construct();
            append_bytes(&mut out, &row);
            out.push(13u8);
            out.push(10u8);
            proof {
                lemma_construct_headers_snoc(hs.take(i as int), hs[i as int]);
                assert(hs.take(i + 1) =~= hs.take(i as int).push(hs[i as int]));
                assert(out@ =~= spec_construct_headers(hs.take(i as int))
                    + spec_construct_header(hs[i as int]) + spec_crlf());
            }
            i = i + 1;
        }
        proof {
            assert(hs.take(hs.len() as int) =~= hs);
        }
        out
    }

    /// Reads header lines at `pos` until an empty line, or until the
    /// accumulated text (starting from `tlen` bytes already read for
    /// this message) passes the cap; a line read past the cap is
    /// discarded unparsed.  Lines that are no headers are skipped.
    pub fn parse(input: &Vec<u8>, pos: usize, tlen: usize) -> (r: Result<(Headers, usize), ParsingError>)
        requires
            pos <= input@.len(),
        ensures
            match r {
                Ok(p) => ({
                    &&& spec_parse_headers(input@, pos as int, tlen as int, Seq::empty())
                        == Ok::<_, ParsingError>((p.0@, p.1 as int, tlen + p.1 - pos))
                    &&& p.0.wf()
                    &&& pos + 2 <= p.1 <= input@.len()
                }),
                Err(e) => spec_parse_headers(input@, pos as int, tlen as int, Seq::empty())
                    == Err::<(Seq<HeaderPair>, int, int), _>(e),
            },
    {
        let mut headers = Headers::new();
        let mut p: usize = pos;
        let mut t: usize = tlen;
        loop
            invariant
                pos <= p <= input@.len(),
                headers.wf(),
                t as int == tlen + p - pos,
                spec_parse_headers(input@, pos as int, tlen as int, Seq::empty())
                    == spec_parse_headers(input@, p as int, t as int, headers@),
            decreases input@.len() - p,
        {
            let (line, p2) = match read_line(input, p) {
                Ok(x) => x,
                Err(e) => {
                    return Err(e);
                },
            };
            let over_cap = line.len() > 9998 || t > 9998 - line.len();
            proof {
                assert(over_cap == (t + line@.len() + 2 > spec_header_cap()));
            }
            if line.len() == 0 || over_cap {
                proof {
                    assert(spec_parse_headers(input@, p as int, t as int, headers@)
                        == Ok::<_, ParsingError>((headers@, p2 as int, t + line@.len() + 2)));
                }
                return Ok((headers, p2));
            }
            let ghost hs0 = headers@;
            match Header::parse(&line) {
                Some(h) => {
                    headers.add(h);
                },
                None => {},
            }
            proof {
                assert(spec_parse_headers(input@, p as int, t as int, hs0)
                    == spec_parse_headers(input@, p2 as int, t + line@.len() + 2, headers@));
            }
            t = t + (p2 - p);
            p = p2;
        }
    }
}

/// The header block rendered back to wire bytes: one terminated line
/// per header, in storage order.
pub open spec fn spec_construct_headers(hs: Seq<HeaderPair>) -> Seq<u8>
    decreases hs.len(),
{
    if hs.len() == 0 {
        Seq::empty()
    } else {
        spec_construct_headers(hs.drop_last()) + spec_construct_header(hs.last()) + spec_crlf()
    }
}

/// Rendering one more header appends one more line.
pub proof fn lemma_construct_headers_snoc(hs: Seq<HeaderPair>, h: HeaderPair)
    ensures
        spec_construct_headers(hs.push(h))
            == spec_construct_headers(hs) + spec_construct_header(h) + spec_crlf(),
{
    assert(hs.push(h).drop_last() =~= hs);
    assert(hs.push(h).last() == h);
}

/// Header-block parsing at `pos`, accumulating into `hs`, with `tlen`
/// bytes of this message's text already read.  The result is the store,
/// the position after the terminating line, and the total text length.
/// An empty line ends the block; so does any line that lifts the
/// accumulated text past the cap, and that line's headers are lost.
pub open spec fn spec_parse_headers(input: Seq<u8>, pos: int, tlen: int, hs: Seq<HeaderPair>) -> Result<(Seq<HeaderPair>, int, int), ParsingError>
    decreases input.len() - pos,
{
    match spec_read_line(input, pos) {
        None => Err(ParsingError::IO),
        Some((line, p2)) => {
            let t2 = tlen + line.len() + 2;
            if line.len() == 0 || t2 > spec_header_cap() {
                Ok((hs, p2, t2))
            } else if !(pos + 2 <= p2 <= input.len()) {
                // a read line always ends inside the buffer and past its
                // start; the guard carries that bound for termination
                Err(ParsingError::IO)
            } else {
                let hs2 = match spec_parse_header_line(line) {
                    Some(h) => spec_store_add(hs, h),
                    None => hs,
                };
                spec_parse_headers(input, p2, t2, hs2)
            }
        },
    }
}

} // verus!
