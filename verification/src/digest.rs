//! SHA-256 digests of labeled fields and of labeled file trees.

use vstd::prelude::*;
use vstd::bytes::{lemma_auto_spec_u64_to_from_le_bytes, spec_u64_to_le_bytes, u64_to_le_bytes};
use vstd::string::*;
use vstd::utf8::encode_utf8;
use sha2::Digest;
use crate::order::{bytes_before, bytes_equal, bytes_less, Ranked};

verus! {

/// The incremental SHA-256 state of the `sha2` crate.
#[verifier::external_type_specification]
#[verifier::external_body]
pub struct ExSha256(sha2::Sha256);

/// The bytes that a SHA-256 state has taken in so far.
pub uninterp spec fn absorbed(state: sha2::Sha256) -> Seq<u8>;

/// The SHA-256 digest of `bytes`.
pub uninterp spec fn sha256(bytes: Seq<u8>) -> Seq<u8>;

/// `sha2::Sha256::new` (through `sha2::Digest`): a state that has taken in nothing.
#[verifier::external_body]
fn sha256_start() -> (state: sha2::Sha256)
    ensures
        absorbed(state) == Seq::<u8>::empty(),
{
    sha2::Sha256::new()
}

/// `sha2::Digest::update`: takes in `bytes` behind everything taken in before.
#[verifier::external_body]
fn sha256_update(state: &mut sha2::Sha256, bytes: &[u8])
    ensures
        absorbed(*final(state)) == absorbed(*old(state)) + bytes@,
{
    state.update(bytes);
}

/// `sha2::Digest::finalize`: the digest of everything taken in.
#[verifier::external_body]
fn sha256_finish(state: sha2::Sha256) -> (digest: [u8; 32])
    ensures
        digest@ == sha256(absorbed(state)),
{
    state.finalize().into()
}

/// SHA-256 digest of one deterministic artifact-input set.
#[derive(Clone, Copy, Debug, Eq, Hash, Ord, PartialOrd)]
pub struct InputDigest([u8; 32]);

impl View for InputDigest {
    type V = Seq<u8>;

    closed spec fn view(&self) -> Seq<u8> {
        self.0@
    }
}

impl PartialEq for InputDigest {
    fn eq(&self, other: &Self) -> (equal: bool) {
        bytes_equal(self.0.as_slice(), other.0.as_slice())
    }
}

impl vstd::std_specs::cmp::PartialEqSpecImpl for InputDigest {
    open spec fn obeys_eq_spec() -> bool {
        true
    }

    open spec fn eq_spec(&self, other: &Self) -> bool {
        self@ == other@
    }
}

/// Digests are ranked by their bytes.
impl Ranked for InputDigest {
    open spec fn precedes(&self, other: &Self) -> bool {
        bytes_less(self@, other@)
    }

    fn comes_before(&self, other: &Self) -> (before: bool) {
        bytes_before(self.0.as_slice(), other.0.as_slice())
    }
}

/// The lowercase hexadecimal digit for a value below sixteen.
pub open spec fn hex_digit(value: int) -> char {
    if value < 10 {
        (('0' as int) + value) as char
    } else {
        (('a' as int) + (value - 10)) as char
    }
}

/// Lowercase hexadecimal text of `bytes`, two digits for each byte.
pub open spec fn hex(bytes: Seq<u8>) -> Seq<char>
    decreases bytes.len(),
{
    if bytes.len() == 0 {
        seq![]
    } else {
        hex(bytes.drop_last()).push(hex_digit(bytes.last() as int / 16)).push(
            hex_digit(bytes.last() as int % 16),
        )
    }
}

fn hex_char(value: u8) -> (character: char)
    requires
        value < 16,
    ensures
        character == hex_digit(value as int),
{
    if value < 10 {
        (48 + value) as char
    } else {
        (87 + value) as char
    }
}

impl InputDigest {
    /// The digest with the given raw bytes.
    pub fn from_bytes(bytes: [u8; 32]) -> (digest: Self)
        ensures
            digest@ == bytes@,
    {
        InputDigest(bytes)
    }

    /// Borrow the raw SHA-256 bytes.
    pub fn as_bytes(&self) -> (bytes: &[u8; 32])
        ensures
            bytes@ == self@,
    {
        &self.0
    }

    /// Render the digest as lowercase hexadecimal.
    pub fn to_hex(self) -> (text: String)
        ensures
            text@ == hex(self@),
    {
        let mut text = String::new();
        let mut at: usize = 0;
        while at < 32
            invariant
                at <= 32,
                self@.len() == 32,
                text@ == hex(self@.take(at as int)),
            decreases 32 - at,
        {
            let byte = self.0[at];
            proof {
                assert(self@.take(at + 1).drop_last() =~= self@.take(at as int));
                assert(self@.take(at + 1).last() == byte);
            }
            text.push(hex_char(byte / 16));
            text.push(hex_char(byte % 16));
            at = at + 1;
        }
        assert(self@.take(at as int) =~= self@);
        text
    }
}

/// A digest holds thirty-two bytes.
pub broadcast proof fn lemma_digest_length(digest: InputDigest)
    ensures
        #[trigger] digest@.len() == 32,
{
}

proof fn lemma_hex_digit_injective(left: int, right: int)
    requires
        0 <= left < 16,
        0 <= right < 16,
        hex_digit(left) == hex_digit(right),
    ensures
        left == right,
{
}

/// Two byte strings with the same hexadecimal text are equal.
pub proof fn lemma_hex_injective(left: Seq<u8>, right: Seq<u8>)
    requires
        hex(left) == hex(right),
    ensures
        left == right,
    decreases left.len(),
{
    if left.len() == 0 {
        assert(right.len() == 0) by {
            if right.len() > 0 {
                assert(hex(right).len() > 0);
            }
        }
        assert(left =~= right);
    } else {
        assert(right.len() > 0) by {
            if right.len() == 0 {
                assert(hex(left).len() > 0);
            }
        }
        let (a, b) = (hex(left), hex(right));
        let (x, y) = (hex(left.drop_last()), hex(right.drop_last()));
        assert(a.last() == b.last());
        assert(a.drop_last().last() == b.drop_last().last());
        assert(a.drop_last().drop_last() =~= x);
        assert(b.drop_last().drop_last() =~= y);
        assert(a.last() == hex_digit(left.last() as int % 16));
        assert(a.drop_last().last() == hex_digit(left.last() as int / 16));
        lemma_hex_digit_injective(left.last() as int % 16, right.last() as int % 16);
        lemma_hex_digit_injective(left.last() as int / 16, right.last() as int / 16);
        lemma_hex_injective(left.drop_last(), right.drop_last());
        assert(left =~= left.drop_last().push(left.last()));
        assert(right =~= right.drop_last().push(right.last()));
    }
}

/// The hexadecimal text has two lowercase digits for each byte.
pub proof fn lemma_hex_text(bytes: Seq<u8>)
    ensures
        hex(bytes).len() == 2 * bytes.len(),
        forall|i: int|
            0 <= i < hex(bytes).len() ==> ('0' <= #[trigger] hex(bytes)[i] <= '9' || 'a' <= hex(
                bytes,
            )[i] <= 'f'),
    decreases bytes.len(),
{
    if bytes.len() > 0 {
        lemma_hex_text(bytes.drop_last());
    }
}

/// One labeled value of a digest.
pub struct Field {
    /// What the value stands for.
    pub label: Seq<char>,
    /// The value itself.
    pub value: Seq<u8>,
}

/// A field with the given label and value.
pub open spec fn field(label: Seq<char>, value: Seq<u8>) -> Field {
    Field { label, value }
}

/// What stands before a value: the length and bytes of its label, then its own length.
pub open spec fn field_header(label: Seq<char>, value_len: nat) -> Seq<u8> {
    spec_u64_to_le_bytes(encode_utf8(label).len() as u64) + encode_utf8(label)
        + spec_u64_to_le_bytes(value_len as u64)
}

/// The bytes that stand for one field.
pub open spec fn framed(field: Field) -> Seq<u8> {
    field_header(field.label, field.value.len()) + field.value
}

/// The bytes that stand for a list of fields.
pub open spec fn frames(fields: Seq<Field>) -> Seq<u8>
    decreases fields.len(),
{
    if fields.len() == 0 {
        seq![]
    } else {
        frames(fields.drop_last()) + framed(fields.last())
    }
}

/// The digest of a list of fields under a domain.
pub open spec fn digest_of(domain: Seq<char>, fields: Seq<Field>) -> Seq<u8> {
    sha256(frames(seq![field("domain"@, encode_utf8(domain))] + fields))
}

/// Whether different bytes have the same SHA-256 digest.
pub open spec fn collides(left: Seq<u8>, right: Seq<u8>) -> bool {
    left != right && sha256(left) == sha256(right)
}

/// Whether the lengths of a field can be written down in full.
pub open spec fn fits(field: Field) -> bool {
    encode_utf8(field.label).len() <= u64::MAX && field.value.len() <= u64::MAX
}

proof fn lemma_concat_equal(a: Seq<u8>, b: Seq<u8>, x: Seq<u8>, y: Seq<u8>)
    requires
        a.len() == b.len(),
        a + x == b + y,
    ensures
        a == b,
        x == y,
{
    assert(a =~= (a + x).take(a.len() as int));
    assert(b =~= (b + y).take(b.len() as int));
    assert(x =~= (a + x).skip(a.len() as int));
    assert(y =~= (b + y).skip(b.len() as int));
}

/// The bytes of a field end where its header says, so what follows never changes how it reads.
pub proof fn lemma_framed_prefix_free(left: Field, right: Field, x: Seq<u8>, y: Seq<u8>)
    requires
        fits(left),
        fits(right),
        framed(left) + x == framed(right) + y,
    ensures
        left == right,
        x == y,
{
    lemma_auto_spec_u64_to_from_le_bytes();
    broadcast use vstd::utf8::encode_utf8_decode_utf8;

    let (ln, rn) = (encode_utf8(left.label), encode_utf8(right.label));
    let (l0, r0) = (spec_u64_to_le_bytes(ln.len() as u64), spec_u64_to_le_bytes(rn.len() as u64));
    let (l1, r1) = (
        spec_u64_to_le_bytes(left.value.len() as u64),
        spec_u64_to_le_bytes(right.value.len() as u64),
    );
    assert(framed(left) + x =~= l0 + (ln + (l1 + (left.value + x))));
    assert(framed(right) + y =~= r0 + (rn + (r1 + (right.value + y))));
    lemma_concat_equal(
        l0,
        r0,
        ln + (l1 + (left.value + x)),
        rn + (r1 + (right.value + y)),
    );
    assert(ln.len() as u64 == rn.len() as u64);
    lemma_concat_equal(ln, rn, l1 + (left.value + x), r1 + (right.value + y));
    lemma_concat_equal(l1, r1, left.value + x, right.value + y);
    assert(left.value.len() as u64 == right.value.len() as u64);
    lemma_concat_equal(left.value, right.value, x, y);
    assert(vstd::utf8::decode_utf8(ln) == left.label);
    assert(vstd::utf8::decode_utf8(rn) == right.label);
}

proof fn lemma_frames_first(fields: Seq<Field>)
    requires
        fields.len() > 0,
    ensures
        frames(fields) == framed(fields[0]) + frames(fields.drop_first()),
    decreases fields.len(),
{
    if fields.len() == 1 {
        assert(fields.drop_last() =~= seq![]);
        assert(fields.drop_first() =~= seq![]);
        assert(frames(fields) =~= framed(fields[0]) + frames(fields.drop_first()));
    } else {
        lemma_frames_first(fields.drop_last());
        assert(fields.drop_last().drop_first() =~= fields.drop_first().drop_last());
        assert(frames(fields) =~= framed(fields[0]) + frames(fields.drop_first()));
    }
}

/// Different lists of fields never stand for the same bytes.
///
/// This is what makes a digest over fields an identity: two inputs can share
/// one digest only through a SHA-256 collision.
pub proof fn lemma_frames_injective(left: Seq<Field>, right: Seq<Field>)
    requires
        forall|i: int| 0 <= i < left.len() ==> fits(#[trigger] left[i]),
        forall|i: int| 0 <= i < right.len() ==> fits(#[trigger] right[i]),
        frames(left) == frames(right),
    ensures
        left == right,
    decreases left.len(),
{
    lemma_auto_spec_u64_to_from_le_bytes();
    if left.len() == 0 {
        if right.len() > 0 {
            lemma_frames_first(right);
            assert(frames(right).len() >= 8);
            assert(frames(left).len() == 0);
        }
        assert(left =~= right);
    } else if right.len() == 0 {
        lemma_frames_first(left);
        assert(frames(left).len() >= 8);
        assert(frames(right).len() == 0);
    } else {
        lemma_frames_first(left);
        lemma_frames_first(right);
        lemma_framed_prefix_free(
            left[0],
            right[0],
            frames(left.drop_first()),
            frames(right.drop_first()),
        );
        lemma_frames_injective(left.drop_first(), right.drop_first());
        assert(left =~= seq![left[0]] + left.drop_first());
        assert(right =~= seq![right[0]] + right.drop_first());
    }
}

/// A list of fields can be taken apart where the kind of the fields changes.
pub proof fn lemma_fields_split(
    left: Seq<Field>,
    left_rest: Seq<Field>,
    right: Seq<Field>,
    right_rest: Seq<Field>,
    kind: spec_fn(Field) -> bool,
)
    requires
        left + left_rest == right + right_rest,
        forall|i: int| 0 <= i < left.len() ==> kind(#[trigger] left[i]),
        forall|i: int| 0 <= i < right.len() ==> kind(#[trigger] right[i]),
        forall|i: int| 0 <= i < left_rest.len() ==> !kind(#[trigger] left_rest[i]),
        forall|i: int| 0 <= i < right_rest.len() ==> !kind(#[trigger] right_rest[i]),
    ensures
        left == right,
        left_rest == right_rest,
{
    let all = left + left_rest;
    if left.len() < right.len() {
        assert(all[left.len() as int] == right[left.len() as int]);
        assert(all[left.len() as int] == left_rest[0]);
    } else if right.len() < left.len() {
        assert(all[right.len() as int] == left[right.len() as int]);
        assert((right + right_rest)[right.len() as int] == right_rest[0]);
    }
    assert(left =~= all.take(left.len() as int));
    assert(right =~= all.take(left.len() as int));
    assert(left_rest =~= all.skip(left.len() as int));
    assert(right_rest =~= all.skip(left.len() as int));
}

/// A file gave another number of bytes than it promised when it was opened.
#[derive(Clone, Copy, Debug, PartialEq, Eq, Structural)]
pub struct FileSizeChanged {
    /// Length that was promised.
    pub expected: u64,
    /// Length that was read.
    pub actual: u64,
}

/// A file whose contents are being taken in.
struct OpenFile {
    expected: u64,
    received: u64,
    label: Ghost<Seq<char>>,
    contents: Ghost<Seq<u8>>,
}

/// Digest under construction: a domain and the fields behind it.
pub struct InputHasher {
    state: sha2::Sha256,
    fields: Ghost<Seq<Field>>,
    open: Option<OpenFile>,
}

impl View for InputHasher {
    type V = Seq<Field>;

    /// The fields taken in so far, the domain first.
    closed spec fn view(&self) -> Seq<Field> {
        self.fields@
    }
}

impl InputHasher {
    /// Whether the SHA-256 state agrees with the recorded fields and the file being taken in.
    pub closed spec fn wf(&self) -> bool {
        match self.open {
            None => absorbed(self.state) == frames(self.fields@),
            Some(file) => {
                &&& absorbed(self.state) == frames(self.fields@) + field_header(
                    file.label@,
                    file.expected as nat,
                ) + file.contents@
                &&& file.received == file.contents@.len()
            },
        }
    }

    /// Whether a file is being taken in.
    pub closed spec fn in_file(&self) -> bool {
        self.open is Some
    }

    /// Label of the file being taken in.
    pub closed spec fn file_label(&self) -> Seq<char> {
        self.open->0.label@
    }

    /// Promised length of the file being taken in.
    pub closed spec fn file_expected(&self) -> nat {
        self.open->0.expected as nat
    }

    /// Contents taken in of the file so far.
    pub closed spec fn file_contents(&self) -> Seq<u8> {
        self.open->0.contents@
    }

    /// Start a digest under `domain`.
    pub fn new(domain: &str) -> (hasher: Self)
        ensures
            hasher.wf(),
            !hasher.in_file(),
            hasher@ == seq![field("domain"@, encode_utf8(domain@))],
    {
        let mut hasher = InputHasher {
            state: sha256_start(),
            fields: Ghost(Seq::empty()),
            open: None,
        };
        hasher.field("domain", domain.as_bytes());
        hasher
    }

    /// Take in one field.
    pub fn field(&mut self, label: &str, value: &[u8])
        requires
            old(self).wf(),
            !old(self).in_file(),
        ensures
            final(self).wf(),
            !final(self).in_file(),
            final(self)@ == old(self)@.push(field(label@, value@)),
    {
        let value_len = value.len() as u64;
        self.absorb_header(label, value_len);
        sha256_update(&mut self.state, value);
        proof {
            let added = field(label@, value@);
            let before = self.fields@;
            assert(before.push(added).drop_last() =~= before);
            assert(frames(before) + field_header(label@, value_len as nat) + value@ =~= frames(
                before,
            ) + framed(added));
            self.fields@ = before.push(added);
        }
    }

    fn absorb_header(&mut self, label: &str, value_len: u64)
        ensures
            absorbed(final(self).state) == absorbed(old(self).state) + field_header(
                label@,
                value_len as nat,
            ),
            final(self).fields == old(self).fields,
            final(self).open == old(self).open,
    {
        let label_bytes = label.as_bytes();
        let label_len = u64_to_le_bytes(label_bytes.len() as u64);
        sha256_update(&mut self.state, label_len.as_slice());
        sha256_update(&mut self.state, label_bytes);
        let length = u64_to_le_bytes(value_len);
        sha256_update(&mut self.state, length.as_slice());
        assert(absorbed(self.state) =~= absorbed(old(self).state) + field_header(
            label@,
            value_len as nat,
        ));
    }

    /// Start to take in a file of `expected` bytes as one field.
    pub fn begin_file_field(&mut self, label: &str, expected: u64)
        requires
            old(self).wf(),
            !old(self).in_file(),
        ensures
            final(self).wf(),
            final(self).in_file(),
            final(self)@ == old(self)@,
            final(self).file_label() == label@,
            final(self).file_expected() == expected,
            final(self).file_contents() == Seq::<u8>::empty(),
    {
        self.absorb_header(label, expected);
        self.open = Some(
            OpenFile { expected, received: 0, label: Ghost(label@), contents: Ghost(Seq::empty()) },
        );
        assert(absorbed(self.state) =~= frames(self.fields@) + field_header(
            label@,
            expected as nat,
        ) + Seq::<u8>::empty());
    }

    /// Take in the next bytes of the file.
    pub fn file_chunk(&mut self, bytes: &[u8])
        requires
            old(self).wf(),
            old(self).in_file(),
            old(self).file_contents().len() + bytes@.len() <= u64::MAX,
        ensures
            final(self).wf(),
            final(self).in_file(),
            final(self)@ == old(self)@,
            final(self).file_label() == old(self).file_label(),
            final(self).file_expected() == old(self).file_expected(),
            final(self).file_contents() == old(self).file_contents() + bytes@,
    {
        let file = self.open.take();
        sha256_update(&mut self.state, bytes);
        if let Some(OpenFile { expected, received, label, contents }) = file {
            let ghost more = contents@ + bytes@;
            assert(absorbed(self.state) =~= frames(self.fields@) + field_header(
                label@,
                expected as nat,
            ) + more);
            self.open = Some(
                OpenFile {
                    expected,
                    received: received + bytes.len() as u64,
                    label,
                    contents: Ghost(more),
                },
            );
        }
    }

    /// Close the file; its field counts when it had the promised length.
    pub fn end_file_field(self) -> (result: Result<(u64, Self), FileSizeChanged>)
        requires
            self.wf(),
            self.in_file(),
        ensures
            result is Ok == (self.file_contents().len() == self.file_expected()),
            result matches Ok((length, hasher)) ==> {
                &&& hasher.wf()
                &&& !hasher.in_file()
                &&& hasher@ == self@.push(field(self.file_label(), self.file_contents()))
                &&& length == self.file_contents().len()
            },
            result matches Err(error) ==> error.expected == self.file_expected() && error.actual
                == self.file_contents().len(),
    {
        let mut hasher = self;
        match hasher.open.take() {
            Some(file) => {
                if file.received != file.expected {
                    return Err(FileSizeChanged { expected: file.expected, actual: file.received });
                }
                proof {
                    let added = field(file.label@, file.contents@);
                    let before = hasher.fields@;
                    assert(before.push(added).drop_last() =~= before);
                    assert(frames(before) + field_header(file.label@, file.expected as nat)
                        + file.contents@ =~= frames(before) + framed(added));
                    hasher.fields@ = before.push(added);
                }
                Ok((file.received, hasher))
            },
            None => Err(FileSizeChanged { expected: 0, actual: 0 }),
        }
    }

    /// The digest of every field taken in.
    pub fn finish(self) -> (digest: InputDigest)
        requires
            self.wf(),
            !self.in_file(),
        ensures
            digest@ == sha256(frames(self@)),
    {
        InputDigest(sha256_finish(self.state))
    }
}

/// Digest of one value under a domain.
pub fn digest_bytes(domain: &str, value: &[u8]) -> (digest: InputDigest)
    ensures
        digest@ == digest_of(domain@, seq![field("content"@, value@)]),
{
    let mut hasher = InputHasher::new(domain);
    hasher.field("content", value);
    assert(hasher@ =~= seq![field("domain"@, encode_utf8(domain@))] + seq![
        field("content"@, value@),
    ]);
    hasher.finish()
}

/// Hexadecimal text gives each byte two digits, the high one first, in order.
pub proof fn lemma_hex_gives_each_byte_two_digits(bytes: Seq<u8>, byte: u8)
    ensures
        hex(bytes).len() == 2 * bytes.len(),
        ({
            let digits = seq![
                '0',
                '1',
                '2',
                '3',
                '4',
                '5',
                '6',
                '7',
                '8',
                '9',
                'a',
                'b',
                'c',
                'd',
                'e',
                'f',
            ];
            hex(bytes.push(byte)) == hex(bytes).push(digits[byte as int / 16]).push(
                digits[byte as int % 16],
            )
        }),
    decreases bytes.len(),
{
    assert(bytes.push(byte).drop_last() =~= bytes);
    if bytes.len() > 0 {
        lemma_hex_gives_each_byte_two_digits(bytes.drop_last(), 0);
    }
}

/// A field is hashed as the length of its label and the label, the length of its value and the
/// value, both lengths as eight bytes with the lowest first; fields follow one another.
pub proof fn lemma_fields_are_framed(left: Seq<Field>, right: Seq<Field>, one: Field)
    ensures
        frames(Seq::<Field>::empty()) == Seq::<u8>::empty(),
        frames(seq![one]) == spec_u64_to_le_bytes(encode_utf8(one.label).len() as u64)
            + encode_utf8(one.label) + spec_u64_to_le_bytes(one.value.len() as u64) + one.value,
        frames(left + right) == frames(left) + frames(right),
    decreases right.len(),
{
    let single = seq![one];
    assert(single.drop_last() =~= Seq::<Field>::empty());
    assert(frames(single.drop_last()) =~= Seq::<u8>::empty());
    assert(frames(single) =~= framed(one));
    if right.len() == 0 {
        assert(left + right =~= left);
        assert(frames(left) + frames(right) =~= frames(left));
    } else {
        lemma_fields_are_framed(left, right.drop_last(), one);
        assert((left + right).drop_last() =~= left + right.drop_last());
        assert((left + right).last() == right.last());
        assert(frames(left + right) =~= frames(left) + frames(right));
    }
}

/// A digest is that of its domain, framed as a field of its own, and of the fields behind it.
pub proof fn lemma_digests_begin_with_their_domain(domain: Seq<char>, fields: Seq<Field>)
    ensures
        digest_of(domain, fields) == sha256(
            frames(seq![(Field { label: "domain"@, value: encode_utf8(domain) })]) + frames(fields),
        ),
{
    let first = Field { label: "domain"@, value: encode_utf8(domain) };
    lemma_fields_are_framed(seq![first], fields, first);
}

} // verus!
