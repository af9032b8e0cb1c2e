//! The record codec for the decrypted payload.
//!
//! A registry is an ordered list of `(name, secret)` records.  Each record
//! is written as one line: the UTF-8 bytes of the name, a NUL separator, the
//! secret in unpadded upper-case base32, and a terminating newline.  Order is
//! significant and preserved verbatim.  Parsing rejects a line without a NUL
//! separator, a name that is not valid UTF-8, and a secret with characters
//! outside the base32 alphabet, all as [`Error::WrongServiceRecordData`].

use vstd::prelude::*;
use vstd::utf8::{decode_utf8, encode_utf8, valid_utf8};
use crate::errors::Error;
use crate::text::{bytes_to_string, chars_to_string, str_to_chars};

verus! {

// ---------------------------------------------------------------------------
// The base32 alphabet, named and wrapped
// ---------------------------------------------------------------------------

/// A character of the unpadded upper-case base32 alphabet.
pub open spec fn is_b32_char(c: char) -> bool {
    ('A' <= c && c <= 'Z') || ('2' <= c && c <= '7')
}

/// A byte whose character is in the base32 alphabet.
pub open spec fn is_b32_byte(b: u8) -> bool {
    (65 <= b && b <= 90) || (50 <= b && b <= 55)
}

/// The unpadded upper-case base32 encoding of a byte sequence.
/// Deterministic in its argument.
pub uninterp spec fn base32_chars(data: Seq<u8>) -> Seq<char>;

/// What base32 decoding returns for a character sequence.  Deterministic in
/// its argument.
pub uninterp spec fn base32_decoded(s: Seq<char>) -> Option<Seq<u8>>;

/// Relies on `base32::encode` with the unpadded RFC 4648 alphabet: eight
/// characters for every five input bytes, the partial group shortened; every
/// character comes from the upper-case base32 alphabet, and `base32::decode`
/// restores exactly the input bytes from the result.
#[verifier::external_body]
fn b32_encode(data: &[u8]) -> (r: String)
    ensures
        r@ == base32_chars(data@),
        r@.len() == (data@.len() * 8 + 4) / 5,
        forall|i: int| 0 <= i < r@.len() ==> is_b32_char(#[trigger] r@[i]),
        base32_decoded(r@) == Some(data@),
{
    base32::encode(base32::Alphabet::Rfc4648 { padding: false }, data)
}

/// Relies on `base32::decode` with the unpadded RFC 4648 alphabet: it
/// returns `None` exactly when some character falls outside the alphabet.
#[verifier::external_body]
fn b32_decode(data: &str) -> (r: Option<Vec<u8>>)
    ensures
        r matches Some(v) ==> base32_decoded(data@) == Some(v@),
        r is None <==> (exists|i: int| 0 <= i < data@.len() && !is_b32_char(#[trigger] data@[i])),
{
    base32::decode(base32::Alphabet::Rfc4648 { padding: false }, data)
}

// ---------------------------------------------------------------------------
// Line framing
// ---------------------------------------------------------------------------

/// The position of the first occurrence of `x` in `s`, or a negative value
/// when `s` does not contain it.
pub open spec fn first_index_of<T>(s: Seq<T>, x: T) -> int
    decreases s.len(),
{
    if s.len() == 0 {
        -1
    } else if s[0] == x {
        0
    } else {
        let r = first_index_of(s.drop_first(), x);
        if r < 0 {
            -1
        } else {
            r + 1
        }
    }
}

/// What a first index means: it points at `x`, nothing before it is `x`, and
/// a negative answer means `x` does not occur at all.
pub proof fn lemma_first_index_of<T>(s: Seq<T>, x: T)
    ensures
        first_index_of(s, x) >= 0 ==> 0 <= first_index_of(s, x) < s.len() && s[first_index_of(
            s,
            x,
        )] == x && (forall|j: int| 0 <= j < first_index_of(s, x) ==> s[j] != x),
        first_index_of(s, x) < 0 ==> forall|j: int| 0 <= j < s.len() ==> s[j] != x,
    decreases s.len(),
{
    if s.len() == 0 {
    } else if s[0] == x {
    } else {
        lemma_first_index_of(s.drop_first(), x);
        let r = first_index_of(s.drop_first(), x);
        if r >= 0 {
            assert(s[r + 1] == s.drop_first()[r]);
            assert forall|j: int| 0 <= j < r + 1 implies s[j] != x by {
                if j > 0 {
                    assert(s[j] == s.drop_first()[j - 1]);
                }
            }
        } else {
            assert forall|j: int| 0 <= j < s.len() implies s[j] != x by {
                if j > 0 {
                    assert(s[j] == s.drop_first()[j - 1]);
                }
            }
        }
    }
}

/// The first index is pinned by exhibiting an occurrence with none before it.
pub proof fn lemma_first_index_is<T>(s: Seq<T>, x: T, k: int)
    requires
        0 <= k < s.len(),
        s[k] == x,
        forall|j: int| 0 <= j < k ==> s[j] != x,
    ensures
        first_index_of(s, x) == k,
{
    lemma_first_index_of(s, x);
    let f = first_index_of(s, x);
    if f < 0 {
    } else if f < k {
    } else if f > k {
    }
}

/// One serialized record line: name bytes, NUL, encoded secret, newline.
pub open spec fn frame_bytes(name_b: Seq<u8>, enc: Seq<u8>) -> Seq<u8> {
    name_b + seq![0u8] + enc + seq![10u8]
}

/// The serialized form of a list of `(name bytes, encoded secret)` pairs.
pub open spec fn frames_bytes(pairs: Seq<(Seq<u8>, Seq<u8>)>) -> Seq<u8>
    decreases pairs.len(),
{
    if pairs.len() == 0 {
        Seq::empty()
    } else {
        frame_bytes(pairs[0].0, pairs[0].1) + frames_bytes(pairs.drop_first())
    }
}

/// Splits a payload into `(name bytes, encoded secret)` pairs: lines end at
/// newlines (a final line may lack one; the empty tail after a final newline
/// is no line), and each line splits at its first NUL.  `None` when a line
/// has no NUL.
pub open spec fn parse_frames(bytes: Seq<u8>) -> Option<Seq<(Seq<u8>, Seq<u8>)>>
    decreases bytes.len(),
    via parse_frames_dec
{
    if bytes.len() == 0 {
        Some(Seq::empty())
    } else {
        let nl = first_index_of(bytes, 10u8);
        let line = if nl < 0 {
            bytes
        } else {
            bytes.subrange(0, nl)
        };
        let rest = if nl < 0 {
            Seq::<u8>::empty()
        } else {
            bytes.subrange(nl + 1, bytes.len() as int)
        };
        let z = first_index_of(line, 0u8);
        if z < 0 {
            None
        } else {
            let name_b = line.subrange(0, z);
            let enc = line.subrange(z + 1, line.len() as int);
            match parse_frames(rest) {
                None => None,
                Some(tail) => Some(seq![(name_b, enc)] + tail),
            }
        }
    }
}

#[via_fn]
proof fn parse_frames_dec(bytes: Seq<u8>) {
    if bytes.len() != 0 {
        lemma_first_index_of(bytes, 10u8);
    }
}

/// Appending one more record to a serialized list appends its line.
pub proof fn lemma_frames_bytes_push(pairs: Seq<(Seq<u8>, Seq<u8>)>, p: (Seq<u8>, Seq<u8>))
    ensures
        frames_bytes(pairs.push(p)) == frames_bytes(pairs) + frame_bytes(p.0, p.1),
    decreases pairs.len(),
{
    if pairs.len() == 0 {
        assert(pairs.push(p)[0] == p);
        assert(pairs.push(p).drop_first() =~= Seq::<(Seq<u8>, Seq<u8>)>::empty());
        assert(frames_bytes(pairs.push(p)) == frame_bytes(p.0, p.1) + frames_bytes(
            Seq::<(Seq<u8>, Seq<u8>)>::empty(),
        ));
        assert(frame_bytes(p.0, p.1) + Seq::<u8>::empty() =~= Seq::<u8>::empty() + frame_bytes(
            p.0,
            p.1,
        ));
    } else {
        assert(pairs.push(p).drop_first() =~= pairs.drop_first().push(p));
        lemma_frames_bytes_push(pairs.drop_first(), p);
        let head = frame_bytes(pairs[0].0, pairs[0].1);
        let mid = frames_bytes(pairs.drop_first());
        let tail = frame_bytes(p.0, p.1);
        assert(pairs.push(p)[0] == pairs[0]);
        assert(frames_bytes(pairs.push(p)) == head + (mid + tail));
        assert(head + (mid + tail) =~= (head + mid) + tail);
    }
}

/// A pair whose serialized line parses back: the name holds no NUL and no
/// newline, and the encoded secret no newline.
pub open spec fn framable(p: (Seq<u8>, Seq<u8>)) -> bool {
    &&& forall|j: int| 0 <= j < p.0.len() ==> p.0[j] != 0u8 && p.0[j] != 10u8
    &&& forall|j: int| 0 <= j < p.1.len() ==> p.1[j] != 10u8
}

/// Line framing round-trips: parsing a serialized list of framable pairs
/// restores exactly those pairs, in order.
pub proof fn lemma_frames_round_trip(pairs: Seq<(Seq<u8>, Seq<u8>)>)
    requires
        forall|i: int| 0 <= i < pairs.len() ==> framable(#[trigger] pairs[i]),
    ensures
        parse_frames(frames_bytes(pairs)) == Some(pairs),
    decreases pairs.len(),
{
    if pairs.len() == 0 {
        assert(parse_frames(frames_bytes(pairs)) =~= Some(Seq::<(Seq<u8>, Seq<u8>)>::empty()));
        assert(Seq::<(Seq<u8>, Seq<u8>)>::empty() =~= pairs);
    } else {
        let p = pairs[0];
        let name_b = p.0;
        let enc = p.1;
        let bytes = frames_bytes(pairs);
        let line0 = frame_bytes(name_b, enc);
        let rest_bytes = frames_bytes(pairs.drop_first());
        assert(bytes =~= line0 + rest_bytes);
        let nl_pos = name_b.len() + 1 + enc.len();
        assert(framable(pairs[0]));
        assert(bytes[nl_pos as int] == 10u8);
        assert forall|j: int| 0 <= j < nl_pos implies bytes[j] != 10u8 by {
            if j < name_b.len() {
                assert(bytes[j] == name_b[j]);
            } else if j == name_b.len() {
                assert(bytes[j] == 0u8);
            } else {
                assert(bytes[j] == enc[j - name_b.len() - 1]);
            }
        }
        lemma_first_index_is(bytes, 10u8, nl_pos as int);
        let line = bytes.subrange(0, nl_pos as int);
        let rest = bytes.subrange(nl_pos as int + 1, bytes.len() as int);
        assert(rest =~= rest_bytes);
        assert(bytes.len() > 0);
        assert(line[name_b.len() as int] == 0u8);
        assert forall|j: int| 0 <= j < name_b.len() implies line[j] != 0u8 by {
            assert(line[j] == name_b[j]);
        }
        lemma_first_index_is(line, 0u8, name_b.len() as int);
        assert(line.subrange(0, name_b.len() as int) =~= name_b);
        assert(line.subrange(name_b.len() as int + 1, line.len() as int) =~= enc);
        assert(forall|i: int|
            0 <= i < pairs.drop_first().len() ==> framable(#[trigger] pairs.drop_first()[i]));
        lemma_frames_round_trip(pairs.drop_first());
        assert(seq![(name_b, enc)] + pairs.drop_first() =~= pairs);
    }
}

// ---------------------------------------------------------------------------
// Records
// ---------------------------------------------------------------------------

/// One registry entry: a display name and the raw TOTP seed bytes.
#[derive(Debug)]
pub struct ServiceRecord {
    pub name: String,
    pub secret: Vec<u8>,
}

impl View for ServiceRecord {
    type V = (Seq<char>, Seq<u8>);

    open spec fn view(&self) -> (Seq<char>, Seq<u8>) {
        (self.name@, self.secret@)
    }
}

impl PartialEq for ServiceRecord {
    fn eq(&self, other: &Self) -> (r: bool) {
        let names_eq = self.name == other.name;
        let secrets_eq = self.secret == other.secret;
        proof {
            if secrets_eq {
                assert(self.secret@ =~= other.secret@);
            }
            if self.secret@ == other.secret@ {
                assert forall|i: int| #![auto] 0 <= i < self.secret@.len()
                    implies self.secret@[i] == other.secret@[i] by {}
            }
        }
        names_eq && secrets_eq
    }
}

impl vstd::std_specs::cmp::PartialEqSpecImpl for ServiceRecord {
    open spec fn obeys_eq_spec() -> bool {
        true
    }

    open spec fn eq_spec(&self, other: &Self) -> bool {
        self@ == other@
    }
}

impl ServiceRecord {
    /// User input for a secret, cleaned up: spaces and tabs dropped, ASCII
    /// lower case raised.
    pub open spec fn normalized_code(s: Seq<char>) -> Seq<char>
        decreases s.len(),
    {
        if s.len() == 0 {
            Seq::empty()
        } else {
            let rest = Self::normalized_code(s.drop_last());
            let c = s.last();
            if c == ' ' || c == '\t' {
                rest
            } else if 'a' <= c && c <= 'z' {
                rest.push(((c as u8) - 32) as char)
            } else {
                rest.push(c)
            }
        }
    }

    /// A record from a display name and a base32 secret as the user typed
    /// it; rejected exactly when the cleaned-up secret falls outside the
    /// base32 alphabet.
    pub fn new(name: &str, code: &str) -> (r: Result<ServiceRecord, Error>)
        ensures
            r matches Ok(rec) ==> rec.name@ == name@ && base32_decoded(
                Self::normalized_code(code@),
            ) == Some(rec.secret@),
            r matches Err(e) ==> e == Error::WrongServiceRecordData,
            r is Err <==> (exists|i: int|
                0 <= i < Self::normalized_code(code@).len() && !is_b32_char(
                    #[trigger] Self::normalized_code(code@)[i],
                )),
    {
        let chars = str_to_chars(code);
        let mut norm: Vec<char> = Vec::new();
        let mut i: usize = 0;
        while i < chars.len()
            invariant
                0 <= i <= chars@.len(),
                chars@ == code@,
                norm@ == Self::normalized_code(chars@.subrange(0, i as int)),
            decreases chars@.len() - i,
        {
            let c = chars[i];
            if !(c == ' ' || c == '\t') {
                if 'a' <= c && c <= 'z' {
                    norm.push(((c as u8) - 32) as char);
                } else {
                    norm.push(c);
                }
            }
            proof {
                let pre = chars@.subrange(0, i + 1);
                assert(pre.drop_last() =~= chars@.subrange(0, i as int));
                assert(pre.last() == chars@[i as int]);
            }
            i = i + 1;
        }
        proof {
            assert(chars@.subrange(0, chars@.len() as int) =~= chars@);
        }
        let cleaned = chars_to_string(&norm);
        match b32_decode(cleaned.as_str()) {
            Some(secret) => Ok(ServiceRecord { name: name.to_owned(), secret }),
            None => Err(Error::WrongServiceRecordData),
        }
    }

    /// The two fields of a record line held in one string: the name before
    /// the first NUL, the secret text between the first NUL and the next one
    /// or the end.
    pub open spec fn nul_split(s: Seq<char>) -> (Seq<char>, Seq<char>)
        recommends
            first_index_of(s, '\u{0}') >= 0,
    {
        let i = first_index_of(s, '\u{0}');
        let rest = s.subrange(i + 1, s.len() as int);
        let j = first_index_of(rest, '\u{0}');
        (s.subrange(0, i), if j < 0 { rest } else { rest.subrange(0, j) })
    }

    /// A record from a NUL-separated `name`/`secret` string, as
    /// [`Self::new`] would build it; a string without a NUL is malformed.
    pub fn from(s: &str) -> (r: Result<ServiceRecord, Error>)
        ensures
            r matches Ok(rec) ==> first_index_of(s@, '\u{0}') >= 0 && rec.name@ == Self::nul_split(
                s@,
            ).0 && base32_decoded(Self::normalized_code(Self::nul_split(s@).1)) == Some(
                rec.secret@,
            ),
            r matches Err(e) ==> e == Error::WrongServiceRecordData,
            r is Err <==> (first_index_of(s@, '\u{0}') < 0 || (exists|i: int|
                0 <= i < Self::normalized_code(Self::nul_split(s@).1).len() && !is_b32_char(
                    #[trigger] Self::normalized_code(Self::nul_split(s@).1)[i],
                ))),
    {
        let chars = str_to_chars(s);
        let n = chars.len();
        let i = match find_char(&chars, 0, '\u{0}') {
            Some(i) => i,
            None => {
                proof {
                    assert(chars@.subrange(0, chars@.len() as int) =~= s@);
                }
                return Err(Error::WrongServiceRecordData);
            },
        };
        proof {
            assert(i < n);
        }
        let j = match find_char(&chars, i + 1, '\u{0}') {
            Some(j) => j,
            None => chars.len(),
        };
        let name_part = vstd::slice::slice_to_vec(
            vstd::slice::slice_subrange(chars.as_slice(), 0, i),
        );
        let code_part = vstd::slice::slice_to_vec(
            vstd::slice::slice_subrange(chars.as_slice(), i + 1, j),
        );
        proof {
            let whole = s@.subrange(0, s@.len() as int);
            assert(whole =~= s@);
            let rest = s@.subrange(i + 1, s@.len() as int);
            assert(rest =~= chars@.subrange(i + 1, chars@.len() as int));
            if j < chars@.len() {
                assert(rest.subrange(0, j - i - 1) =~= chars@.subrange(i + 1, j as int));
            } else {
                assert(rest =~= chars@.subrange(i + 1, j as int));
            }
            assert(name_part@ =~= Self::nul_split(s@).0);
            assert(code_part@ =~= Self::nul_split(s@).1);
        }
        let name = chars_to_string(&name_part);
        let code = chars_to_string(&code_part);
        match Self::new(name.as_str(), code.as_str()) {
            Ok(rec) => Ok(rec),
            Err(e) => Err(e),
        }
    }

    /// The secret as unpadded upper-case base32 text, as it is stored.
    pub fn marshall_secret(&self) -> (r: String)
        ensures
            r@ == base32_chars(self.secret@),
    {
        b32_encode(self.secret.as_slice())
    }
}

/// The position of the first `x` in `v[from..]`, if any.
fn find_char(v: &Vec<char>, from: usize, x: char) -> (r: Option<usize>)
    requires
        from <= v@.len(),
    ensures
        r matches Some(k) ==> from <= k < v@.len() && first_index_of(
            v@.subrange(from as int, v@.len() as int),
            x,
        ) == k - from,
        r is None ==> first_index_of(v@.subrange(from as int, v@.len() as int), x) < 0,
{
    let ghost sub = v@.subrange(from as int, v@.len() as int);
    let mut i: usize = from;
    while i < v.len()
        invariant
            from <= i <= v@.len(),
            sub == v@.subrange(from as int, v@.len() as int),
            forall|j: int| from <= j < i ==> v@[j] != x,
        decreases v@.len() - i,
    {
        if v[i] == x {
            proof {
                assert(sub[i - from] == x);
                assert forall|j: int| 0 <= j < i - from implies sub[j] != x by {
                    assert(sub[j] == v@[from + j]);
                }
                lemma_first_index_is(sub, x, i - from);
            }
            return Some(i);
        }
        i = i + 1;
    }
    proof {
        lemma_first_index_of(sub, x);
        let f = first_index_of(sub, x);
        if f >= 0 {
            assert(sub[f] == v@[from + f]);
        }
    }
    None
}

/// The views of a list of records.
pub open spec fn records_view(rs: Seq<ServiceRecord>) -> Seq<(Seq<char>, Seq<u8>)> {
    Seq::new(rs.len(), |i: int| rs[i]@)
}

/// The wire pair of one record: UTF-8 name bytes and base32 secret bytes.
pub open spec fn record_frame(name: Seq<char>, secret: Seq<u8>) -> (Seq<u8>, Seq<u8>) {
    (encode_utf8(name), encode_utf8(base32_chars(secret)))
}

/// The serialized payload of a list of records.
pub open spec fn serialize_spec(records: Seq<(Seq<char>, Seq<u8>)>) -> Seq<u8> {
    frames_bytes(Seq::new(records.len(), |i: int| record_frame(records[i].0, records[i].1)))
}

/// Serializes records in order, one line each: name, NUL, unpadded base32 of
/// the secret, newline.  The extra clauses restate, for every record, what
/// the base32 encoder guarantees about its output.
pub fn serialize_records(records: &Vec<ServiceRecord>) -> (r: Vec<u8>)
    ensures
        r@ == serialize_spec(records_view(records@)),
        forall|i: int|
            0 <= i < records@.len() ==> base32_decoded(
                base32_chars(#[trigger] records@[i].secret@),
            ) == Some(records@[i].secret@),
        forall|i: int, j: int|
            0 <= i < records@.len() && 0 <= j < base32_chars(records@[i].secret@).len()
                ==> is_b32_char(#[trigger] base32_chars(records@[i].secret@)[j]),
{
    let ghost frames = Seq::new(
        records@.len(),
        |i: int| record_frame(records@[i].name@, records@[i].secret@),
    );
    let mut out: Vec<u8> = Vec::new();
    let mut idx: usize = 0;
    while idx < records.len()
        invariant
            0 <= idx <= records@.len(),
            frames == Seq::new(
                records@.len(),
                |i: int| record_frame(records@[i].name@, records@[i].secret@),
            ),
            out@ == frames_bytes(frames.subrange(0, idx as int)),
            forall|i: int|
                0 <= i < idx ==> base32_decoded(base32_chars(#[trigger] records@[i].secret@))
                    == Some(records@[i].secret@),
            forall|i: int, j: int|
                0 <= i < idx && 0 <= j < base32_chars(records@[i].secret@).len() ==> is_b32_char(
                    #[trigger] base32_chars(records@[i].secret@)[j],
                ),
        decreases records@.len() - idx,
    {
        let ghost out_before = out@;
        let rec = &records[idx];
        out.extend_from_slice(rec.name.as_str().as_bytes());
        out.push(0u8);
        let enc = b32_encode(rec.secret.as_slice());
        out.extend_from_slice(enc.as_str().as_bytes());
        out.push(10u8);
        proof {
            let p = record_frame(records@[idx as int].name@, records@[idx as int].secret@);
            assert(out@ =~= out_before + frame_bytes(p.0, p.1));
            lemma_frames_bytes_push(frames.subrange(0, idx as int), p);
            assert(frames.subrange(0, idx as int).push(p) =~= frames.subrange(0, idx + 1));
        }
        idx = idx + 1;
    }
    proof {
        assert(frames.subrange(0, records@.len() as int) =~= frames);
        let rv = records_view(records@);
        assert(Seq::new(rv.len(), |i: int| record_frame(rv[i].0, rv[i].1)) =~= frames);
    }
    out
}

// ---------------------------------------------------------------------------
// Deserialization
// ---------------------------------------------------------------------------

/// Each byte read as the character of its code point.
pub open spec fn bytes_as_chars(s: Seq<u8>) -> Seq<char> {
    Seq::new(s.len(), |i: int| s[i] as char)
}

/// A wire pair that decodes: the name bytes are valid UTF-8 and the encoded
/// secret stays within the base32 alphabet.
pub open spec fn valid_frame(p: (Seq<u8>, Seq<u8>)) -> bool {
    &&& valid_utf8(p.0)
    &&& forall|j: int| 0 <= j < p.1.len() ==> is_b32_byte(#[trigger] p.1[j])
}

/// The record a valid wire pair decodes to.
pub open spec fn decode_frame_spec(p: (Seq<u8>, Seq<u8>)) -> (Seq<char>, Seq<u8>) {
    (decode_utf8(p.0), base32_decoded(bytes_as_chars(p.1))->Some_0)
}

/// What deserialization returns for every payload: the decoded records when
/// every line frames and decodes, and `WrongServiceRecordData` otherwise.
pub open spec fn deserialize_spec(bytes: Seq<u8>) -> Result<Seq<(Seq<char>, Seq<u8>)>, Error> {
    match parse_frames(bytes) {
        None => Err(Error::WrongServiceRecordData),
        Some(pairs) => {
            if forall|i: int| 0 <= i < pairs.len() ==> valid_frame(#[trigger] pairs[i]) {
                Ok(Seq::new(pairs.len(), |i: int| decode_frame_spec(pairs[i])))
            } else {
                Err(Error::WrongServiceRecordData)
            }
        },
    }
}

proof fn lemma_b32_byte_char(b: u8)
    requires
        is_b32_byte(b),
    ensures
        is_b32_char(b as char),
{
}

/// The position of the first `x` in `bytes[from..to]`, if any.
fn find_byte(bytes: &[u8], from: usize, to: usize, x: u8) -> (r: Option<usize>)
    requires
        from <= to <= bytes@.len(),
    ensures
        r matches Some(k) ==> from <= k < to && first_index_of(
            bytes@.subrange(from as int, to as int),
            x,
        ) == k - from,
        r is None ==> first_index_of(bytes@.subrange(from as int, to as int), x) < 0,
{
    let ghost sub = bytes@.subrange(from as int, to as int);
    let mut i: usize = from;
    while i < to
        invariant
            from <= i <= to <= bytes@.len(),
            sub == bytes@.subrange(from as int, to as int),
            forall|j: int| from <= j < i ==> bytes@[j] != x,
        decreases to - i,
    {
        if bytes[i] == x {
            proof {
                assert(sub[i - from] == x);
                assert forall|j: int| 0 <= j < i - from implies sub[j] != x by {
                    assert(sub[j] == bytes@[from + j]);
                }
                lemma_first_index_is(sub, x, i - from);
            }
            return Some(i);
        }
        i = i + 1;
    }
    proof {
        lemma_first_index_of(sub, x);
        let f = first_index_of(sub, x);
        if f >= 0 {
            assert(sub[f] == bytes@[from + f]);
        }
    }
    None
}

/// Decodes one wire pair into a record, exactly when [`valid_frame`] holds
/// of it.
fn decode_frame(name_b: &[u8], enc: &[u8]) -> (r: Result<ServiceRecord, Error>)
    ensures
        r matches Err(e) ==> e == Error::WrongServiceRecordData && !valid_frame((name_b@, enc@)),
        r matches Ok(rec) ==> valid_frame((name_b@, enc@)) && rec@ == decode_frame_spec(
            (name_b@, enc@),
        ),
{
    let name = match bytes_to_string(vstd::slice::slice_to_vec(name_b)) {
        Some(s) => s,
        None => {
            return Err(Error::WrongServiceRecordData);
        },
    };
    proof {
        vstd::utf8::encode_utf8_decode_utf8(name@);
    }
    let mut chars: Vec<char> = Vec::new();
    let mut i: usize = 0;
    while i < enc.len()
        invariant
            0 <= i <= enc@.len(),
            chars@ =~= bytes_as_chars(enc@).subrange(0, i as int),
            forall|j: int| 0 <= j < i ==> is_b32_byte(#[trigger] enc@[j]),
        decreases enc@.len() - i,
    {
        let b = enc[i];
        if !((b >= 65 && b <= 90) || (b >= 50 && b <= 55)) {
            proof {
                let p = (name_b@, enc@);
                assert(p.1[i as int] == enc@[i as int]);
                assert(!is_b32_byte(p.1[i as int]));
                assert(!valid_frame(p));
            }
            return Err(Error::WrongServiceRecordData);
        }
        chars.push(b as char);
        i = i + 1;
    }
    proof {
        assert(chars@ =~= bytes_as_chars(enc@));
    }
    let encoded = chars_to_string(&chars);
    let secret = match b32_decode(encoded.as_str()) {
        Some(v) => v,
        None => {
            proof {
                let s = bytes_as_chars(enc@);
                let bad = choose|i: int| 0 <= i < s.len() && !is_b32_char(s[i]);
                lemma_b32_byte_char(enc@[bad]);
            }
            return Err(Error::WrongServiceRecordData);
        },
    };
    Ok(ServiceRecord { name, secret })
}

/// Deserializes a decrypted payload into its records, exactly as
/// [`deserialize_spec`] describes: order preserved, every malformed line
/// reported as `WrongServiceRecordData`.
pub fn deserialize_records(bytes: &[u8]) -> (r: Result<Vec<ServiceRecord>, Error>)
    ensures
        r matches Ok(v) ==> deserialize_spec(bytes@) == Ok::<Seq<(Seq<char>, Seq<u8>)>, Error>(
            records_view(v@),
        ),
        r matches Err(e) ==> deserialize_spec(bytes@) == Err::<Seq<(Seq<char>, Seq<u8>)>, Error>(
            e,
        ),
{
    let mut out: Vec<ServiceRecord> = Vec::new();
    let mut pos: usize = 0;
    let ghost mut done: Seq<(Seq<u8>, Seq<u8>)> = Seq::empty();
    proof {
        assert(bytes@.subrange(0, bytes@.len() as int) =~= bytes@);
        if parse_frames(bytes@) is Some {
            let t = parse_frames(bytes@)->Some_0;
            assert(Seq::<(Seq<u8>, Seq<u8>)>::empty() + t =~= t);
        }
    }
    while pos < bytes.len()
        invariant
            pos <= bytes@.len(),
            (match parse_frames(bytes@.subrange(pos as int, bytes@.len() as int)) {
                None => parse_frames(bytes@) is None,
                Some(t) => parse_frames(bytes@) == Some(done + t),
            }),
            forall|i: int| 0 <= i < done.len() ==> valid_frame(#[trigger] done[i]),
            out@.len() == done.len(),
            forall|i: int| 0 <= i < done.len() ==> out@[i]@ == decode_frame_spec(
                #[trigger] done[i],
            ),
        decreases bytes@.len() - pos,
    {
        let ghost rest = bytes@.subrange(pos as int, bytes@.len() as int);
        let (line_end, next_pos): (usize, usize) = match find_byte(bytes, pos, bytes.len(), 10u8) {
            Some(k) => (k, k + 1),
            None => (bytes.len(), bytes.len()),
        };
        let ghost nl = first_index_of(rest, 10u8);
        let ghost line = if nl < 0 { rest } else { rest.subrange(0, nl) };
        let ghost rest2 = if nl < 0 {
            Seq::<u8>::empty()
        } else {
            rest.subrange(nl + 1, rest.len() as int)
        };
        proof {
            assert(line =~= bytes@.subrange(pos as int, line_end as int));
            assert(rest2 =~= bytes@.subrange(next_pos as int, bytes@.len() as int));
        }
        let z = match find_byte(bytes, pos, line_end, 0u8) {
            Some(k) => k,
            None => {
                proof {
                    assert(bytes@.subrange(pos as int, line_end as int) =~= line);
                    assert(parse_frames(rest) is None);
                }
                return Err(Error::WrongServiceRecordData);
            },
        };
        proof {
            assert(bytes@.subrange(pos as int, line_end as int) =~= line);
            assert(first_index_of(line, 0u8) == z - pos);
        }
        let name_b = vstd::slice::slice_subrange(bytes, pos, z);
        let enc = vstd::slice::slice_subrange(bytes, z + 1, line_end);
        let ghost pair = (line.subrange(0, z - pos), line.subrange(z - pos + 1, line.len() as int));
        proof {
            assert(name_b@ =~= pair.0);
            assert(enc@ =~= pair.1);
            assert(parse_frames(rest) == (match parse_frames(rest2) {
                None => None::<Seq<(Seq<u8>, Seq<u8>)>>,
                Some(tail) => Some(seq![pair] + tail),
            }));
        }
        let rec = match decode_frame(name_b, enc) {
            Ok(rec) => rec,
            Err(e) => {
                proof {
                    if parse_frames(bytes@) is Some {
                        let full = parse_frames(bytes@)->Some_0;
                        let t = parse_frames(rest)->Some_0;
                        assert(full == done + t);
                        assert(t[0] == pair);
                        assert(full[done.len() as int] == pair);
                        assert(!valid_frame(full[done.len() as int]));
                    }
                }
                return Err(Error::WrongServiceRecordData);
            },
        };
        out.push(rec);
        proof {
            if parse_frames(rest2) is Some {
                let tail = parse_frames(rest2)->Some_0;
                assert(parse_frames(bytes@) == Some(done + (seq![pair] + tail)));
                assert(done + (seq![pair] + tail) =~= (done + seq![pair]) + tail);
            }
            done = done + seq![pair];
        }
        pos = next_pos;
    }
    proof {
        assert(bytes@.subrange(pos as int, bytes@.len() as int).len() == 0);
        assert(parse_frames(bytes@.subrange(pos as int, bytes@.len() as int))
            == Some(Seq::<(Seq<u8>, Seq<u8>)>::empty()));
        assert(done + Seq::<(Seq<u8>, Seq<u8>)>::empty() =~= done);
        assert(parse_frames(bytes@) == Some(done));
        assert(records_view(out@) =~= Seq::new(done.len(), |i: int| decode_frame_spec(done[i])));
    }
    Ok(out)
}

// ---------------------------------------------------------------------------
// The record round trip
// ---------------------------------------------------------------------------

proof fn lemma_encode_scalar_no_ctl(scalar: u32)
    requires
        vstd::utf8::is_scalar(scalar),
        scalar != 0,
        scalar != 10,
    ensures
        forall|k: int|
            0 <= k < vstd::utf8::encode_scalar(scalar).len() ==> vstd::utf8::encode_scalar(
                scalar,
            )[k] != 0u8 && vstd::utf8::encode_scalar(scalar)[k] != 10u8,
{
    if vstd::utf8::has_width_1_encoding(scalar) {
        assert((scalar & 0x7F) as u8 != 0u8 && (scalar & 0x7F) as u8 != 10u8) by (bit_vector)
            requires
                scalar < 0x80,
                scalar != 0,
                scalar != 10,
        ;
    } else {
        assert((0xC0u8 | ((scalar >> 6) & 0x1F) as u8) >= 0x80) by (bit_vector);
        assert((0xE0u8 | ((scalar >> 12) & 0x0F) as u8) >= 0x80) by (bit_vector);
        assert((0xF0u8 | ((scalar >> 18) & 0x7) as u8) >= 0x80) by (bit_vector);
        assert((0x80u8 | (scalar & 0x3F) as u8) >= 0x80) by (bit_vector);
        assert((0x80u8 | ((scalar >> 6) & 0x3F) as u8) >= 0x80) by (bit_vector);
        assert((0x80u8 | ((scalar >> 12) & 0x3F) as u8) >= 0x80) by (bit_vector);
    }
}

/// The UTF-8 bytes of characters other than NUL and newline never contain
/// the NUL or newline byte.
proof fn lemma_encode_utf8_no_ctl(chars: Seq<char>)
    requires
        forall|i: int|
            0 <= i < chars.len() ==> (#[trigger] chars[i]) as u32 != 0 && chars[i] as u32 != 10,
    ensures
        forall|k: int|
            0 <= k < encode_utf8(chars).len() ==> encode_utf8(chars)[k] != 0u8 && encode_utf8(
                chars,
            )[k] != 10u8,
    decreases chars.len(),
{
    if chars.len() > 0 {
        let c = chars[0];
        vstd::utf8::char_is_scalar(c);
        lemma_encode_scalar_no_ctl(c as u32);
        lemma_encode_utf8_no_ctl(chars.drop_first());
        let head = vstd::utf8::encode_scalar(c as u32);
        let tail = encode_utf8(chars.drop_first());
        assert forall|k: int|
            0 <= k < encode_utf8(chars).len() implies encode_utf8(chars)[k] != 0u8 && encode_utf8(
            chars,
        )[k] != 10u8 by {
            if k < head.len() {
                assert(encode_utf8(chars)[k] == head[k]);
            } else {
                assert(encode_utf8(chars)[k] == tail[k - head.len()]);
            }
        }
    }
}

/// Characters of the base32 alphabet encode to their own code points, which
/// are base32 bytes, and read back as the same characters.
proof fn lemma_b32_chars_bytes(chars: Seq<char>)
    requires
        forall|i: int| 0 <= i < chars.len() ==> is_b32_char(#[trigger] chars[i]),
    ensures
        forall|k: int|
            0 <= k < encode_utf8(chars).len() ==> is_b32_byte(#[trigger] encode_utf8(chars)[k]),
        bytes_as_chars(encode_utf8(chars)) == chars,
    decreases chars.len(),
{
    assert(vstd::utf8::is_ascii_chars(chars));
    vstd::utf8::is_ascii_chars_encode_utf8(chars);
    let bytes = encode_utf8(chars);
    assert(bytes =~= Seq::new(chars.len(), |i: int| chars[i] as u8));
    assert forall|k: int| 0 <= k < bytes.len() implies is_b32_byte(#[trigger] bytes[k]) by {
        assert(bytes[k] == chars[k] as u8);
        assert(is_b32_char(chars[k]));
    }
    assert forall|k: int| 0 <= k < bytes.len() implies bytes_as_chars(bytes)[k] == chars[k] by {
        assert(bytes[k] == chars[k] as u8);
    }
    assert(bytes_as_chars(bytes) =~= chars);
}

/// Deserializing a serialized list of records restores exactly those
/// records, in order, provided no name holds a NUL or newline character
/// (stated over code points).  The base32 hypotheses are the facts that
/// [`serialize_records`]' own contract states for every record it has
/// written, so callers of the executable pair discharge them directly.
pub proof fn lemma_records_round_trip(records: Seq<(Seq<char>, Seq<u8>)>)
    requires
        forall|i: int, j: int|
            0 <= i < records.len() && 0 <= j < records[i].0.len() ==> (
            #[trigger] records[i].0[j]) as u32 != 0 && records[i].0[j] as u32 != 10,
        forall|i: int|
            0 <= i < records.len() ==> base32_decoded(base32_chars(#[trigger] records[i].1))
                == Some(records[i].1),
        forall|i: int, j: int|
            0 <= i < records.len() && 0 <= j < base32_chars(records[i].1).len() ==> is_b32_char(
                #[trigger] base32_chars(records[i].1)[j],
            ),
    ensures
        deserialize_spec(serialize_spec(records)) == Ok::<Seq<(Seq<char>, Seq<u8>)>, Error>(
            records,
        ),
{
    let pairs = Seq::new(records.len(), |i: int| record_frame(records[i].0, records[i].1));
    assert forall|i: int| 0 <= i < pairs.len() implies framable(#[trigger] pairs[i]) by {
        lemma_encode_utf8_no_ctl(records[i].0);
        assert forall|j: int|
            0 <= j < base32_chars(records[i].1).len() implies (#[trigger] base32_chars(
            records[i].1,
        )[j]) as u32 != 0 && base32_chars(records[i].1)[j] as u32 != 10 by {
            assert(is_b32_char(base32_chars(records[i].1)[j]));
        }
        lemma_encode_utf8_no_ctl(base32_chars(records[i].1));
    }
    lemma_frames_round_trip(pairs);
    assert(serialize_spec(records) == frames_bytes(pairs));
    assert forall|i: int| 0 <= i < pairs.len() implies valid_frame(#[trigger] pairs[i]) by {
        vstd::utf8::encode_utf8_valid_utf8(records[i].0);
        lemma_b32_chars_bytes(base32_chars(records[i].1));
    }
    assert forall|i: int|
        0 <= i < pairs.len() implies decode_frame_spec(#[trigger] pairs[i]) == records[i] by {
        vstd::utf8::encode_utf8_decode_utf8(records[i].0);
        lemma_b32_chars_bytes(base32_chars(records[i].1));
    }
    assert(Seq::new(pairs.len(), |i: int| decode_frame_spec(pairs[i])) =~= records);
}

/// The whole store round-trips: decrypting a well-formed container holding
/// a serialized record list with its own password, then deserializing,
/// restores exactly those records.
pub proof fn lemma_store_round_trip(
    buf: Seq<u8>,
    records: Seq<(Seq<char>, Seq<u8>)>,
    password: Seq<char>,
)
    requires
        crate::crpt::encrypted_with(buf, serialize_spec(records), password),
        forall|i: int, j: int|
            0 <= i < records.len() && 0 <= j < records[i].0.len() ==> (
            #[trigger] records[i].0[j]) as u32 != 0 && records[i].0[j] as u32 != 10,
        forall|i: int|
            0 <= i < records.len() ==> base32_decoded(base32_chars(#[trigger] records[i].1))
                == Some(records[i].1),
        forall|i: int, j: int|
            0 <= i < records.len() && 0 <= j < base32_chars(records[i].1).len() ==> is_b32_char(
                #[trigger] base32_chars(records[i].1)[j],
            ),
    ensures
        crate::crpt::decrypt_spec(buf, password) == Ok::<Seq<u8>, Error>(serialize_spec(records)),
        deserialize_spec(serialize_spec(records)) == Ok::<Seq<(Seq<char>, Seq<u8>)>, Error>(
            records,
        ),
{
    crate::crpt::lemma_encrypt_decrypt(buf, serialize_spec(records), password);
    lemma_records_round_trip(records);
}

/// A line without a NUL separator is rejected.
pub proof fn lemma_line_without_nul_rejected(line: Seq<u8>)
    requires
        line.len() > 0,
        forall|j: int| 0 <= j < line.len() ==> line[j] != 0u8 && line[j] != 10u8,
    ensures
        deserialize_spec(line + seq![10u8]) == Err::<Seq<(Seq<char>, Seq<u8>)>, Error>(
            Error::WrongServiceRecordData,
        ),
{
    let bytes = line + seq![10u8];
    assert(bytes[line.len() as int] == 10u8);
    assert forall|j: int| 0 <= j < line.len() implies bytes[j] != 10u8 by {
        assert(bytes[j] == line[j]);
    }
    lemma_first_index_is(bytes, 10u8, line.len() as int);
    assert(bytes.subrange(0, line.len() as int) =~= line);
    lemma_first_index_of(line, 0u8);
    if first_index_of(line, 0u8) >= 0 {
        assert(line[first_index_of(line, 0u8)] == 0u8);
    }
}

/// A line whose secret field holds a character outside the base32 alphabet
/// is rejected.
pub proof fn lemma_invalid_base32_rejected(name_b: Seq<u8>, enc: Seq<u8>)
    requires
        forall|j: int| 0 <= j < name_b.len() ==> name_b[j] != 0u8 && name_b[j] != 10u8,
        forall|j: int| 0 <= j < enc.len() ==> enc[j] != 10u8,
        exists|j: int| 0 <= j < enc.len() && !is_b32_byte(#[trigger] enc[j]),
    ensures
        deserialize_spec(frame_bytes(name_b, enc)) == Err::<Seq<(Seq<char>, Seq<u8>)>, Error>(
            Error::WrongServiceRecordData,
        ),
{
    let pairs = seq![(name_b, enc)];
    assert(framable(pairs[0]));
    lemma_frames_round_trip(pairs);
    assert(pairs.drop_first() =~= Seq::<(Seq<u8>, Seq<u8>)>::empty());
    assert(frames_bytes(pairs) == frame_bytes(name_b, enc) + frames_bytes(
        Seq::<(Seq<u8>, Seq<u8>)>::empty(),
    ));
    assert(frames_bytes(pairs) =~= frame_bytes(name_b, enc));
    assert(!valid_frame(pairs[0]));
}

} // verus!
