use core::marker::PhantomData;
use vstd::prelude::*;
use vstd::utf8::*;

use crate::error::{ErrorView, TFTPError};

verus! {

broadcast use vstd::utf8::encode_utf8_valid_utf8, vstd::utf8::encode_utf8_decode_utf8;

pub const OPCODE_RRQ: u8 = 1;
pub const OPCODE_WRQ: u8 = 2;
pub const OPCODE_DATA: u8 = 3;
pub const OPCODE_ACK: u8 = 4;
pub const OPCODE_ERROR: u8 = 5;

/// The largest payload of one DATA packet; every block but the last is this long.
pub const MAX_DATA_LEN: usize = 512;

/// The length of the header in front of a DATA payload.
pub const DATA_HEADER_LEN: usize = 4;

/// Block numbers are 24-bit: they stay below this bound.
pub const BLOCK_SPACE: usize = 16777216;

// ---------------------------------------------------------------------------
// Byte-level helpers
// ---------------------------------------------------------------------------

/// The index of the first zero byte of `s` at or after `from`, or `s.len()` if none.
pub open spec fn find_zero(s: Seq<u8>, from: int) -> int
    decreases s.len() - from,
{
    if from >= s.len() {
        s.len() as int
    } else if s[from] == 0 {
        from
    } else {
        find_zero(s, from + 1)
    }
}

proof fn lemma_find_zero(s: Seq<u8>, from: int)
    requires
        0 <= from <= s.len(),
    ensures
        from <= find_zero(s, from) <= s.len(),
        find_zero(s, from) < s.len() ==> s[find_zero(s, from)] == 0,
        forall|i: int| from <= i < find_zero(s, from) ==> s[i] != 0,
    decreases s.len() - from,
{
    if from < s.len() && s[from] != 0 {
        lemma_find_zero(s, from + 1);
    }
}

/// A zero byte at `to`, with none in `[from, to)`, is the one that `find_zero` finds.
proof fn lemma_find_zero_at(s: Seq<u8>, from: int, to: int)
    requires
        0 <= from <= to < s.len(),
        s[to] == 0,
        forall|i: int| from <= i < to ==> s[i] != 0,
    ensures
        find_zero(s, from) == to,
    decreases to - from,
{
    if from < to {
        lemma_find_zero_at(s, from + 1, to);
    }
}

fn find_zero_from(src: &[u8], from: usize) -> (r: usize)
    requires
        from <= src@.len(),
    ensures
        r == find_zero(src@, from as int),
{
    let mut i: usize = from;
    while i < src.len()
        invariant
            from <= i <= src@.len(),
            find_zero(src@, from as int) == find_zero(src@, i as int),
        decreases src@.len() - i,
    {
        if src[i] == 0 {
            return i;
        }
        i = i + 1;
    }
    i
}

fn copy_bytes(src: &[u8], lo: usize, hi: usize) -> (r: Vec<u8>)
    requires
        lo <= hi <= src@.len(),
    ensures
        r@ == src@.subrange(lo as int, hi as int),
{
    let mut v: Vec<u8> = Vec::with_capacity(hi - lo);
    let mut i: usize = lo;
    while i < hi
        invariant
            lo <= i <= hi <= src@.len(),
            v@ == src@.subrange(lo as int, i as int),
        decreases hi - i,
    {
        v.push(src[i]);
        i = i + 1;
        assert(v@ =~= src@.subrange(lo as int, i as int));
    }
    v
}

fn append_bytes(v: &mut Vec<u8>, src: &[u8])
    ensures
        final(v)@ == old(v)@ + src@,
{
    let mut i: usize = 0;
    while i < src.len()
        invariant
            i <= src@.len(),
            v@ == old(v)@ + src@.subrange(0, i as int),
        decreases src@.len() - i,
    {
        v.push(src[i]);
        i = i + 1;
        assert(v@ =~= old(v)@ + src@.subrange(0, i as int));
    }
    assert(src@.subrange(0, src@.len() as int) =~= src@);
}

fn contains_zero(src: &[u8]) -> (r: bool)
    ensures
        r == src@.contains(0),
{
    let mut i: usize = 0;
    while i < src.len()
        invariant
            i <= src@.len(),
            forall|j: int| 0 <= j < i ==> src@[j] != 0,
        decreases src@.len() - i,
    {
        if src[i] == 0 {
            assert(src@[i as int] == 0);
            return true;
        }
        i = i + 1;
    }
    false
}

/// Relies on `String::from_utf8`: it accepts exactly the valid UTF-8 byte sequences
/// and then holds the characters they encode; `FromUtf8Error::into_bytes` gives the
/// rejected bytes back.
#[verifier::external_body]
fn string_from_utf8(v: Vec<u8>) -> (r: Result<String, Vec<u8>>)
    ensures
        match r {
            Ok(s) => valid_utf8(v@) && s@ == decode_utf8(v@),
            Err(b) => !valid_utf8(v@) && b@ == v@,
        },
{
    match String::from_utf8(v) {
        Ok(s) => Ok(s),
        Err(e) => Err(e.into_bytes()),
    }
}

/// The UTF-8 bytes of a string.
pub open spec fn utf8_of(s: Seq<char>) -> Seq<u8> {
    encode_utf8(s)
}

fn string_bytes(s: &String) -> (r: &[u8])
    ensures
        r@ == utf8_of(s@),
{
    s.as_str().as_bytes()
}

/// Every sequence of ASCII bytes is valid UTF-8.
proof fn lemma_ascii_valid_utf8(b: Seq<u8>)
    requires
        forall|i: int| 0 <= i < b.len() ==> b[i] < 0x80,
    ensures
        valid_utf8(b),
    decreases b.len(),
{
    if b.len() > 0 {
        let b0 = b[0];
        assert(is_leading_byte_width_1(b0)) by (bit_vector)
            requires
                b0 < 0x80,
        ;
        assert(pop_first_scalar(b) =~= b.drop_first());
        lemma_ascii_valid_utf8(b.drop_first());
    }
}

// ---------------------------------------------------------------------------
// Transfer modes
// ---------------------------------------------------------------------------

/// RFC 1350 specifies 3 transfer modes; all of them move the bytes unchanged here.
#[derive(Clone, Copy, Debug, PartialEq, Eq, Structural)]
pub enum RWMode {
    /// The filename is an email address or username; the data is the body of the email.
    Mail,
    /// Text with network line endings.
    NetASCII,
    /// Leave the data as it is.
    Octet,
}

/// The name of a mode as it goes on the wire (lower case ASCII).
pub open spec fn mode_bytes(m: RWMode) -> Seq<u8> {
    match m {
        RWMode::Mail => seq![109u8, 97u8, 105u8, 108u8],
        RWMode::NetASCII => seq![110u8, 101u8, 116u8, 97u8, 115u8, 99u8, 105u8, 105u8],
        RWMode::Octet => seq![111u8, 99u8, 116u8, 101u8, 116u8],
    }
}

pub open spec fn ascii_lower(b: u8) -> u8 {
    if 65 <= b <= 90 {
        (b + 32) as u8
    } else {
        b
    }
}

/// Equality of two byte strings up to ASCII letter case.
pub open spec fn eq_ignore_ascii_case(a: Seq<u8>, b: Seq<u8>) -> bool {
    &&& a.len() == b.len()
    &&& forall|i: int| 0 <= i < a.len() ==> ascii_lower(#[trigger] a[i]) == ascii_lower(b[i])
}

/// The mode that a byte string names, ignoring ASCII letter case.
pub open spec fn mode_of(b: Seq<u8>) -> Option<RWMode> {
    if eq_ignore_ascii_case(b, mode_bytes(RWMode::Mail)) {
        Some(RWMode::Mail)
    } else if eq_ignore_ascii_case(b, mode_bytes(RWMode::NetASCII)) {
        Some(RWMode::NetASCII)
    } else if eq_ignore_ascii_case(b, mode_bytes(RWMode::Octet)) {
        Some(RWMode::Octet)
    } else {
        None
    }
}

fn lower_byte(b: u8) -> (r: u8)
    ensures
        r == ascii_lower(b),
{
    if 65 <= b && b <= 90 {
        b + 32
    } else {
        b
    }
}

fn bytes_eq_ignore_case(a: &[u8], b: &[u8]) -> (r: bool)
    ensures
        r == eq_ignore_ascii_case(a@, b@),
{
    if a.len() != b.len() {
        return false;
    }
    let mut i: usize = 0;
    while i < a.len()
        invariant
            i <= a@.len(),
            a@.len() == b@.len(),
            forall|j: int| 0 <= j < i ==> ascii_lower(#[trigger] a@[j]) == ascii_lower(b@[j]),
        decreases a@.len() - i,
    {
        if lower_byte(a[i]) != lower_byte(b[i]) {
            return false;
        }
        i = i + 1;
    }
    true
}

impl RWMode {
    /// The mode's name as sent on the wire.
    pub fn to_bytes(self) -> (r: Vec<u8>)
        ensures
            r@ == mode_bytes(self),
    {
        let r = match self {
            RWMode::Mail => vec![109u8, 97u8, 105u8, 108u8],
            RWMode::NetASCII => vec![110u8, 101u8, 116u8, 97u8, 115u8, 99u8, 105u8, 105u8],
            RWMode::Octet => vec![111u8, 99u8, 116u8, 101u8, 116u8],
        };
        assert(r@ =~= mode_bytes(self));
        r
    }

    /// Reads a mode name, ignoring ASCII letter case.
    pub fn from_str(src: &str) -> (r: Option<RWMode>)
        ensures
            r == mode_of(utf8_of(src@)),
    {
        let b = src.as_bytes();
        let mail = RWMode::Mail.to_bytes();
        if bytes_eq_ignore_case(b, mail.as_slice()) {
            return Some(RWMode::Mail);
        }
        let netascii = RWMode::NetASCII.to_bytes();
        if bytes_eq_ignore_case(b, netascii.as_slice()) {
            return Some(RWMode::NetASCII);
        }
        let octet = RWMode::Octet.to_bytes();
        if bytes_eq_ignore_case(b, octet.as_slice()) {
            return Some(RWMode::Octet);
        }
        None
    }
}

// ---------------------------------------------------------------------------
// Read and write requests
// ---------------------------------------------------------------------------

#[derive(Clone, Copy, Debug, PartialEq, Eq, Structural)]
pub enum RequestType {
    Write,
    Read,
}

pub open spec fn opcode_of(t: RequestType) -> u8 {
    match t {
        RequestType::Write => OPCODE_WRQ,
        RequestType::Read => OPCODE_RRQ,
    }
}

impl RequestType {
    pub fn opcode(self) -> (r: u8)
        ensures
            r == opcode_of(self),
    {
        match self {
            RequestType::Write => OPCODE_WRQ,
            RequestType::Read => OPCODE_RRQ,
        }
    }
}

/// Marks a request header as a read or a write request.
pub trait ToRequestType {
    spec fn spec_request_type() -> RequestType;

    fn request_type() -> (r: RequestType)
        ensures
            r == Self::spec_request_type(),
    ;
}

#[derive(Clone, Copy, Debug)]
pub struct ReadHeader;

impl ToRequestType for ReadHeader {
    open spec fn spec_request_type() -> RequestType {
        RequestType::Read
    }

    fn request_type() -> (r: RequestType) {
        RequestType::Read
    }
}

#[derive(Clone, Copy, Debug)]
pub struct WriteHeader;

impl ToRequestType for WriteHeader {
    open spec fn spec_request_type() -> RequestType {
        RequestType::Write
    }

    fn request_type() -> (r: RequestType) {
        RequestType::Write
    }
}

/// The encoding of a request: `[0, opcode, filename, 0, mode, 0]`.
pub open spec fn rw_bytes(op: u8, name: Seq<u8>, mode: RWMode) -> Seq<u8> {
    seq![0u8, op] + name + seq![0u8] + mode_bytes(mode) + seq![0u8]
}

/// What decoding a request yields: the filename and the mode, or the error.
pub open spec fn rw_decode(src: Seq<u8>) -> Result<(Seq<char>, RWMode), ErrorView> {
    let f = find_zero(src, 2);
    let m = find_zero(src, f + 1);
    let name = src.subrange(2, f);
    let mode = src.subrange(f + 1, m);
    if src.len() < 6 {
        Err(ErrorView::InvalidHeaderLen)
    } else if src[2] == 0 {
        Err(ErrorView::EmptyFilename)
    } else if f >= src.len() {
        Err(ErrorView::InvalidFilename(src))
    } else if m >= src.len() {
        Err(ErrorView::InvalidMode(src))
    } else if mode.len() == 0 {
        Err(ErrorView::EmptyMode)
    } else if !valid_utf8(name) {
        Err(ErrorView::InvalidUnicodeString(name))
    } else if !valid_utf8(mode) {
        Err(ErrorView::InvalidUnicodeString(mode))
    } else {
        match mode_of(mode) {
            Some(md) => Ok((decode_utf8(name), md)),
            None => Err(ErrorView::InvalidMode(src)),
        }
    }
}

/// A filename that can go on the wire: its UTF-8 bytes are non-empty and hold no zero.
pub open spec fn filename_ok(name: Seq<char>) -> bool {
    utf8_of(name).len() > 0 && !utf8_of(name).contains(0)
}

/// Represents either a read request or a write request; in any case the raw format is:
/// ```text
///        2 bytes    string   1 byte     string   1 byte
///        -----------------------------------------------
/// RRQ/  | 01/02 |  Filename  |   0  |    Mode    |   0  |
/// WRQ    -----------------------------------------------
/// ```
#[derive(Debug)]
pub struct RWHeader<T: ToRequestType> {
    /// The name / path of the file to be read / written.
    pub filename: String,
    /// The mode of data transfer.
    pub mode: RWMode,
    /// Which of the two requests this is.
    pub _pd: PhantomData<T>,
}

impl<T: ToRequestType> Clone for RWHeader<T> {
    fn clone(&self) -> (r: Self)
        ensures
            r.filename@ == self.filename@,
            r.mode == self.mode,
    {
        RWHeader { filename: self.filename.clone(), mode: self.mode, _pd: PhantomData }
    }
}

impl<T: ToRequestType> RWHeader<T> {
    /// Builds a request; the filename must be non-empty and free of null characters.
    pub fn new(filename: String, mode: RWMode) -> (r: Result<Self, TFTPError>)
        ensures
            utf8_of(filename@).len() == 0 ==> r matches Err(TFTPError::EmptyFilename),
            utf8_of(filename@).len() > 0 && utf8_of(filename@).contains(0) ==> (r matches Err(
                TFTPError::InvalidFilename(b),
            ) && b@ == utf8_of(filename@)),
            filename_ok(filename@) ==> (r matches Ok(h) && h.filename@ == filename@ && h.mode
                == mode),
    {
        let b = string_bytes(&filename);
        if b.len() == 0 {
            return Err(TFTPError::EmptyFilename);
        }
        if contains_zero(b) {
            let bytes = copy_bytes(b, 0, b.len());
            assert(b@.subrange(0, b@.len() as int) =~= b@);
            return Err(TFTPError::InvalidFilename(bytes));
        }
        Ok(RWHeader { filename, mode, _pd: PhantomData })
    }

    /// Encodes the request.
    pub fn into_raw(self) -> (r: Vec<u8>)
        ensures
            r@ == rw_bytes(opcode_of(T::spec_request_type()), utf8_of(self.filename@), self.mode),
    {
        let mut data: Vec<u8> = Vec::new();
        data.push(0u8);
        data.push(T::request_type().opcode());
        append_bytes(&mut data, string_bytes(&self.filename));
        data.push(0u8);
        let mode = self.mode.to_bytes();
        append_bytes(&mut data, mode.as_slice());
        data.push(0u8);
        assert(data@ =~= rw_bytes(
            opcode_of(T::spec_request_type()),
            utf8_of(self.filename@),
            self.mode,
        ));
        data
    }

    /// Decodes a request; byte 1 (the opcode) is not looked at.
    pub fn from_raw(src: &[u8]) -> (r: Result<Self, TFTPError>)
        ensures
            match r {
                Ok(h) => rw_decode(src@) == Ok::<(Seq<char>, RWMode), ErrorView>(
                    (h.filename@, h.mode),
                ),
                Err(e) => rw_decode(src@) == Err::<(Seq<char>, RWMode), ErrorView>(e@),
            },
    {
        if src.len() < 6 {
            return Err(TFTPError::InvalidHeaderLen);
        }
        if src[2] == 0 {
            return Err(TFTPError::EmptyFilename);
        }
        let f = find_zero_from(src, 2);
        proof {
            lemma_find_zero(src@, 2);
        }
        if f == src.len() {
            let all = copy_bytes(src, 0, src.len());
            assert(src@.subrange(0, src@.len() as int) =~= src@);
            return Err(TFTPError::InvalidFilename(all));
        }
        let m = find_zero_from(src, f + 1);
        proof {
            lemma_find_zero(src@, f + 1);
        }
        if m == src.len() {
            let all = copy_bytes(src, 0, src.len());
            assert(src@.subrange(0, src@.len() as int) =~= src@);
            return Err(TFTPError::InvalidMode(all));
        }
        if m == f + 1 {
            return Err(TFTPError::EmptyMode);
        }
        let name = copy_bytes(src, 2, f);
        let mode = copy_bytes(src, f + 1, m);
        let ghost mode_seq = mode@;
        match string_from_utf8(name) {
            Err(b) => Err(TFTPError::InvalidUnicodeString(b)),
            Ok(filename) => match string_from_utf8(mode) {
                Err(b) => Err(TFTPError::InvalidUnicodeString(b)),
                Ok(mode_string) => {
                    proof {
                        vstd::utf8::decode_utf8_encode_utf8(mode_seq);
                    }
                    match RWMode::from_str(mode_string.as_str()) {
                        Some(md) => Ok(RWHeader { filename, mode: md, _pd: PhantomData }),
                        None => {
                            let all = copy_bytes(src, 0, src.len());
                            assert(src@.subrange(0, src@.len() as int) =~= src@);
                            Err(TFTPError::InvalidMode(all))
                        },
                    }
                },
            },
        }
    }
}

/// Decoding an encoded request gives back its filename and mode.
pub proof fn lemma_rw_round_trip(op: u8, name: Seq<char>, mode: RWMode)
    requires
        filename_ok(name),
    ensures
        rw_decode(rw_bytes(op, utf8_of(name), mode)) == Ok::<(Seq<char>, RWMode), ErrorView>(
            (name, mode),
        ),
{
    let n = utf8_of(name);
    let mb = mode_bytes(mode);
    let s = rw_bytes(op, n, mode);
    let f: int = 2 + n.len() as int;
    let m: int = f + 1 + mb.len() as int;
    assert(s.len() == m + 1);
    assert forall|i: int| 2 <= i < f implies s[i] != 0 by {
        assert(s[i] == n[i - 2]);
        if n[i - 2] == 0 {
            assert(n.contains(0));
        }
    }
    assert(s[f] == 0);
    lemma_find_zero_at(s, 2, f);
    assert forall|i: int| f + 1 <= i < m implies s[i] != 0 by {
        assert(s[i] == mb[i - f - 1]);
    }
    assert(s[m] == 0);
    lemma_find_zero_at(s, f + 1, m);
    assert(s.subrange(2, f) =~= n);
    assert(s.subrange(f + 1, m) =~= mb);
    assert(s[2] == n[0]);
    assert(n[0] != 0) by {
        if n[0] == 0 {
            assert(n.contains(0));
        }
    }
    lemma_ascii_valid_utf8(mb);
}

// ---------------------------------------------------------------------------
// Block numbers
// ---------------------------------------------------------------------------

/// The three bytes of a 24-bit block number, most significant first.
pub open spec fn block_hi(bn: int) -> u8 {
    ((bn / 65536) % 256) as u8
}

pub open spec fn block_mid(bn: int) -> u8 {
    ((bn / 256) % 256) as u8
}

pub open spec fn block_lo(bn: int) -> u8 {
    (bn % 256) as u8
}

/// The block number that the bytes 0, 2 and 3 of a DATA or ACK packet carry.
pub open spec fn block_of(src: Seq<u8>) -> int {
    src[0] * 65536 + src[2] * 256 + src[3]
}

proof fn lemma_block_bytes(bn: int)
    requires
        0 <= bn < BLOCK_SPACE,
    ensures
        block_hi(bn) * 65536 + block_mid(bn) * 256 + block_lo(bn) == bn,
{
    assert(bn / 65536 < 256);
    assert((bn / 65536) % 256 == bn / 65536);
    assert(bn == 65536 * (bn / 65536) + bn % 65536);
    assert(bn % 65536 == 256 * ((bn / 256) % 256) + bn % 256) by (nonlinear_arith)
        requires
            0 <= bn,
    {
        assert(bn / 256 == 256 * (bn / 65536) + (bn % 65536) / 256);
    }
}

fn read_block(src: &[u8]) -> (r: usize)
    requires
        src@.len() >= 4,
    ensures
        r == block_of(src@),
        r < BLOCK_SPACE,
{
    (src[0] as usize) * 65536 + (src[2] as usize) * 256 + (src[3] as usize)
}

fn push_block(v: &mut Vec<u8>, bn: usize, op: u8)
    ensures
        final(v)@ == old(v)@ + seq![block_hi(bn as int), op, block_mid(bn as int), block_lo(bn as int)],
{
    v.push(((bn / 65536) % 256) as u8);
    v.push(op);
    v.push(((bn / 256) % 256) as u8);
    v.push((bn % 256) as u8);
    assert(final(v)@ =~= old(v)@ + seq![block_hi(bn as int), op, block_mid(bn as int), block_lo(bn as int)]);
}

// ---------------------------------------------------------------------------
// Data packets
// ---------------------------------------------------------------------------

/// The encoding of a DATA packet: `[bn_hi, 3, bn_mid, bn_lo, payload...]`.
pub open spec fn data_bytes(bn: int, payload: Seq<u8>) -> Seq<u8> {
    seq![block_hi(bn), OPCODE_DATA, block_mid(bn), block_lo(bn)] + payload
}

/// What decoding a DATA packet yields: the block number and the payload, or the error.
pub open spec fn data_decode(src: Seq<u8>) -> Result<(int, Seq<u8>), ErrorView> {
    if src.len() < 4 {
        Err(ErrorView::InvalidHeaderLen)
    } else if src.len() > 4 + MAX_DATA_LEN {
        Err(ErrorView::InvalidDataLen)
    } else {
        Ok((block_of(src), src.subrange(4, src.len() as int)))
    }
}

/// Represents a data header; either sent or received.
/// With the exception of the first byte being used as the most significant byte of
/// the block number, this is the format specified by RFC 1350:
/// ```text
///        1 byte        1 byte          2 bytes          n bytes
///         -----------------------------------------------------------
///  DATA  | Block # MSB | 0x03 |  Block # lower 2 bytes  |    Data    |
///         -----------------------------------------------------------
/// ```
#[derive(Clone, Debug)]
pub struct DataHeader {
    /// The data of this packet, in a buffer of `MAX_DATA_LEN` bytes.
    pub data: Vec<u8>,
    /// How many bytes of `data` are actually being used.
    pub data_len: usize,
    /// The block number. Each block is `MAX_DATA_LEN` bytes in size.
    pub block_number: usize,
}

impl DataHeader {
    /// The bytes that the packet carries.
    pub open spec fn payload(&self) -> Seq<u8> {
        self.data@.subrange(0, self.data_len as int)
    }

    /// The buffer holds the payload, which is no longer than a block.
    pub open spec fn wf(&self) -> bool {
        self.data_len <= self.data@.len() && self.data_len <= MAX_DATA_LEN
    }

    /// A data header that carries `data_src` as block `block_number`.
    pub fn new(data_src: &[u8], block_number: usize) -> (r: Self)
        requires
            data_src@.len() <= MAX_DATA_LEN,
        ensures
            r.wf(),
            r.block_number == block_number,
            r.payload() == data_src@,
            r.data@.len() == MAX_DATA_LEN,
    {
        let mut data: Vec<u8> = Vec::with_capacity(MAX_DATA_LEN);
        append_bytes(&mut data, data_src);
        while data.len() < MAX_DATA_LEN
            invariant
                data_src@.len() <= data@.len() <= MAX_DATA_LEN,
                data@.subrange(0, data_src@.len() as int) == data_src@,
            decreases MAX_DATA_LEN - data@.len(),
        {
            data.push(0u8);
            assert(data@.subrange(0, data_src@.len() as int) =~= data_src@);
        }
        assert(data@.subrange(0, data_src@.len() as int) =~= data_src@);
        DataHeader { data, data_len: data_src.len(), block_number }
    }

    /// A data header with an empty payload: the terminator of a transfer whose length
    /// is a multiple of the block size.
    pub fn new_empty(block_number: usize) -> (r: Self)
        ensures
            r.wf(),
            r.block_number == block_number,
            r.payload() == Seq::<u8>::empty(),
            r.data@.len() == MAX_DATA_LEN,
    {
        let mut data: Vec<u8> = Vec::with_capacity(MAX_DATA_LEN);
        while data.len() < MAX_DATA_LEN
            invariant
                data@.len() <= MAX_DATA_LEN,
            decreases MAX_DATA_LEN - data@.len(),
        {
            data.push(0u8);
        }
        let r = DataHeader { data, data_len: 0, block_number };
        assert(r.payload() =~= Seq::<u8>::empty());
        r
    }

    /// Encodes the packet.
    pub fn into_raw(self) -> (r: Vec<u8>)
        requires
            self.wf(),
        ensures
            r@ == data_bytes(self.block_number as int, self.payload()),
    {
        let mut v: Vec<u8> = Vec::with_capacity(DATA_HEADER_LEN + self.data_len);
        push_block(&mut v, self.block_number, OPCODE_DATA);
        let mut i: usize = 0;
        while i < self.data_len
            invariant
                self.wf(),
                i <= self.data_len,
                v@ == seq![block_hi(self.block_number as int), OPCODE_DATA, block_mid(self.block_number as int), block_lo(self.block_number as int)]
                    + self.data@.subrange(0, i as int),
            decreases self.data_len - i,
        {
            v.push(self.data[i]);
            i = i + 1;
            assert(v@ =~= seq![block_hi(self.block_number as int), OPCODE_DATA, block_mid(self.block_number as int), block_lo(self.block_number as int)]
                + self.data@.subrange(0, i as int));
        }
        v
    }

    /// Decodes a DATA packet; byte 1 (the opcode) is not looked at.
    pub fn from_raw(src: &[u8]) -> (r: Result<Self, TFTPError>)
        ensures
            match r {
                Ok(h) => h.wf() && h.data@.len() == MAX_DATA_LEN && data_decode(src@) == Ok::<(int, Seq<u8>), ErrorView>(
                    (h.block_number as int, h.payload()),
                ),
                Err(e) => data_decode(src@) == Err::<(int, Seq<u8>), ErrorView>(e@),
            },
    {
        if src.len() < 4 {
            return Err(TFTPError::InvalidHeaderLen);
        }
        if src.len() > DATA_HEADER_LEN + MAX_DATA_LEN {
            return Err(TFTPError::InvalidDataLen);
        }
        let block_number = read_block(src);
        let payload = copy_bytes(src, 4, src.len());
        Ok(DataHeader::new(payload.as_slice(), block_number))
    }
}

/// Decoding an encoded DATA packet gives back its block number and payload.
pub proof fn lemma_data_round_trip(bn: int, payload: Seq<u8>)
    requires
        0 <= bn < BLOCK_SPACE,
        payload.len() <= MAX_DATA_LEN,
    ensures
        data_decode(data_bytes(bn, payload)) == Ok::<(int, Seq<u8>), ErrorView>((bn, payload)),
{
    let s = data_bytes(bn, payload);
    lemma_block_bytes(bn);
    assert(s.subrange(4, s.len() as int) =~= payload);
}

// ---------------------------------------------------------------------------
// Acknowledgements
// ---------------------------------------------------------------------------

/// The encoding of an ACK packet: `[bn_hi, 4, bn_mid, bn_lo]`.
pub open spec fn ack_bytes(bn: int) -> Seq<u8> {
    seq![block_hi(bn), OPCODE_ACK, block_mid(bn), block_lo(bn)]
}

/// What decoding an ACK packet yields: the block number, or the error.
pub open spec fn ack_decode(src: Seq<u8>) -> Result<int, ErrorView> {
    if src.len() < 4 {
        Err(ErrorView::InvalidHeaderLen)
    } else {
        Ok(block_of(src))
    }
}

/// Represents an acknowledgement header; either sent or received.
/// When encoded, an ack header has the following format:
/// ```text
///        1 byte         1 byte     2 bytes
///        -------------------------------------------------
/// ACK   | Block # MSB | 04     |   Block # lower 2 bytes  |
///        -------------------------------------------------
/// ```
#[derive(Clone, Copy, Debug, PartialEq, Eq, Structural)]
pub struct AckHeader {
    pub block_number: usize,
}

impl AckHeader {
    pub fn new(block_number: usize) -> (r: Self)
        ensures
            r.block_number == block_number,
    {
        AckHeader { block_number }
    }

    /// Encodes the acknowledgement.
    pub fn into_raw(self) -> (r: Vec<u8>)
        ensures
            r@ == ack_bytes(self.block_number as int),
    {
        let mut v: Vec<u8> = Vec::with_capacity(4);
        push_block(&mut v, self.block_number, OPCODE_ACK);
        assert(v@ =~= ack_bytes(self.block_number as int));
        v
    }

    /// Decodes an ACK packet; byte 1 (the opcode) is not looked at.
    pub fn from_raw(src: &[u8]) -> (r: Result<AckHeader, TFTPError>)
        ensures
            match r {
                Ok(h) => ack_decode(src@) == Ok::<int, ErrorView>(h.block_number as int),
                Err(e) => ack_decode(src@) == Err::<int, ErrorView>(e@),
            },
    {
        if src.len() < 4 {
            return Err(TFTPError::InvalidHeaderLen);
        }
        Ok(AckHeader { block_number: read_block(src) })
    }
}

/// Decoding an encoded ACK packet gives back its block number.
pub proof fn lemma_ack_round_trip(bn: int)
    requires
        0 <= bn < BLOCK_SPACE,
    ensures
        ack_decode(ack_bytes(bn)) == Ok::<int, ErrorView>(bn),
{
    lemma_block_bytes(bn);
}

// ---------------------------------------------------------------------------
// Error packets
// ---------------------------------------------------------------------------

/// All the error codes defined by RFC 1350. An error code greater than 7 is read as
/// `ErrorCode::Undefined`.
#[derive(Clone, Copy, Debug, PartialEq, Eq, Structural)]
pub enum ErrorCode {
    Undefined,
    FileNotFound,
    AccessViolation,
    DiskFull,
    IllegalOperation,
    UnknownTransferID,
    FileAlreadyExists,
    NoSuchUser,
}

/// The number of an error code on the wire.
pub open spec fn code_number(c: ErrorCode) -> u16 {
    match c {
        ErrorCode::Undefined => 0,
        ErrorCode::FileNotFound => 1,
        ErrorCode::AccessViolation => 2,
        ErrorCode::DiskFull => 3,
        ErrorCode::IllegalOperation => 4,
        ErrorCode::UnknownTransferID => 5,
        ErrorCode::FileAlreadyExists => 6,
        ErrorCode::NoSuchUser => 7,
    }
}

/// The error code that a number names; numbers from 8 on name `Undefined`.
pub open spec fn code_from(n: u16) -> ErrorCode {
    if n == 1 {
        ErrorCode::FileNotFound
    } else if n == 2 {
        ErrorCode::AccessViolation
    } else if n == 3 {
        ErrorCode::DiskFull
    } else if n == 4 {
        ErrorCode::IllegalOperation
    } else if n == 5 {
        ErrorCode::UnknownTransferID
    } else if n == 6 {
        ErrorCode::FileAlreadyExists
    } else if n == 7 {
        ErrorCode::NoSuchUser
    } else {
        ErrorCode::Undefined
    }
}

impl ErrorCode {
    /// The code's number on the wire.
    pub fn number(self) -> (r: u16)
        ensures
            r == code_number(self),
    {
        match self {
            ErrorCode::Undefined => 0,
            ErrorCode::FileNotFound => 1,
            ErrorCode::AccessViolation => 2,
            ErrorCode::DiskFull => 3,
            ErrorCode::IllegalOperation => 4,
            ErrorCode::UnknownTransferID => 5,
            ErrorCode::FileAlreadyExists => 6,
            ErrorCode::NoSuchUser => 7,
        }
    }

    /// The code that a number names; numbers from 8 on give `Undefined`.
    pub fn from_number(src: u16) -> (r: ErrorCode)
        ensures
            r == code_from(src),
    {
        if src == 1 {
            ErrorCode::FileNotFound
        } else if src == 2 {
            ErrorCode::AccessViolation
        } else if src == 3 {
            ErrorCode::DiskFull
        } else if src == 4 {
            ErrorCode::IllegalOperation
        } else if src == 5 {
            ErrorCode::UnknownTransferID
        } else if src == 6 {
            ErrorCode::FileAlreadyExists
        } else if src == 7 {
            ErrorCode::NoSuchUser
        } else {
            ErrorCode::Undefined
        }
    }
}

impl From<u16> for ErrorCode {
    fn from(src: u16) -> ErrorCode {
        ErrorCode::from_number(src)
    }
}

impl vstd::std_specs::convert::FromSpecImpl<u16> for ErrorCode {
    open spec fn obeys_from_spec() -> bool {
        true
    }

    open spec fn from_spec(v: u16) -> ErrorCode {
        code_from(v)
    }
}

/// Reading a code's own number gives the code back.
pub proof fn lemma_code_round_trip(c: ErrorCode)
    ensures
        code_from(code_number(c)) == c,
{
}

/// The encoding of an ERROR packet: `[0, 5, code_hi, code_lo, message..., 0]`.
pub open spec fn error_bytes(code: ErrorCode, message: Seq<u8>) -> Seq<u8> {
    seq![0u8, OPCODE_ERROR, (code_number(code) / 256) as u8, (code_number(code) % 256) as u8]
        + message + seq![0u8]
}

/// What decoding an ERROR packet yields: the code and the message, or the error.
pub open spec fn error_decode(src: Seq<u8>) -> Result<(ErrorCode, Seq<char>), ErrorView> {
    let t = find_zero(src, 4);
    let message = src.subrange(4, t);
    if src.len() < 5 {
        Err(ErrorView::InvalidHeaderLen)
    } else if t >= src.len() {
        Err(ErrorView::InvalidString)
    } else if !valid_utf8(message) {
        Err(ErrorView::InvalidUnicodeString(message))
    } else {
        Ok((code_from((src[2] * 256 + src[3]) as u16), decode_utf8(message)))
    }
}

/// Represents a TFTP error header.
/// The header, when encoded, has the following format:
/// ```text
///         2 bytes  2 bytes       string    1 byte
///        ----------------------------------------
/// ERROR | 05    |  ErrorCode |   ErrMsg   |   0  |
///        ----------------------------------------
/// ```
#[derive(Clone, Debug)]
pub struct ErrorHeader {
    /// Gives a hint as to what may have gone wrong.
    pub error_code: ErrorCode,
    /// The error message. It should not contain any null characters.
    pub error_message: String,
}

impl ErrorHeader {
    /// Builds an error header; the message must hold no null character.
    pub fn new(error_code: ErrorCode, error_message: String) -> (r: Result<ErrorHeader, TFTPError>)
        ensures
            utf8_of(error_message@).contains(0) ==> r matches Err(TFTPError::InvalidString),
            !utf8_of(error_message@).contains(0) ==> (r matches Ok(h) && h.error_code == error_code
                && h.error_message@ == error_message@),
    {
        if contains_zero(string_bytes(&error_message)) {
            Err(TFTPError::InvalidString)
        } else {
            Ok(ErrorHeader { error_message, error_code })
        }
    }

    /// Decodes an ERROR packet; bytes 0 and 1 are not looked at.
    pub fn from_raw(src: &[u8]) -> (r: Result<ErrorHeader, TFTPError>)
        ensures
            match r {
                Ok(h) => error_decode(src@) == Ok::<(ErrorCode, Seq<char>), ErrorView>(
                    (h.error_code, h.error_message@),
                ),
                Err(e) => error_decode(src@) == Err::<(ErrorCode, Seq<char>), ErrorView>(e@),
            },
    {
        if src.len() < 5 {
            return Err(TFTPError::InvalidHeaderLen);
        }
        let error_code = ErrorCode::from_number((src[2] as u16) * 256 + (src[3] as u16));
        let t = find_zero_from(src, 4);
        proof {
            lemma_find_zero(src@, 4);
        }
        if t == src.len() {
            return Err(TFTPError::InvalidString);
        }
        let message = copy_bytes(src, 4, t);
        match string_from_utf8(message) {
            Ok(error_message) => Ok(ErrorHeader { error_code, error_message }),
            Err(b) => Err(TFTPError::InvalidUnicodeString(b)),
        }
    }

    /// Encodes the error packet.
    pub fn into_raw(self) -> (r: Vec<u8>)
        ensures
            r@ == error_bytes(self.error_code, utf8_of(self.error_message@)),
    {
        let code = self.error_code.number();
        let mut data: Vec<u8> = Vec::new();
        data.push(0u8);
        data.push(OPCODE_ERROR);
        data.push((code / 256) as u8);
        data.push((code % 256) as u8);
        append_bytes(&mut data, string_bytes(&self.error_message));
        data.push(0u8);
        assert(data@ =~= error_bytes(self.error_code, utf8_of(self.error_message@)));
        data
    }
}

/// Decoding an encoded ERROR packet gives back its code and message.
pub proof fn lemma_error_round_trip(code: ErrorCode, message: Seq<char>)
    requires
        !utf8_of(message).contains(0),
    ensures
        error_decode(error_bytes(code, utf8_of(message))) == Ok::<(ErrorCode, Seq<char>), ErrorView>(
            (code, message),
        ),
{
    let m = utf8_of(message);
    let s = error_bytes(code, m);
    let t: int = 4 + m.len() as int;
    assert forall|i: int| 4 <= i < t implies s[i] != 0 by {
        assert(s[i] == m[i - 4]);
        if m[i - 4] == 0 {
            assert(m.contains(0));
        }
    }
    lemma_find_zero_at(s, 4, t);
    assert(s.subrange(4, t) =~= m);
    let n = code_number(code);
    assert(((n / 256) as u8) * 256 + ((n % 256) as u8) == n);
}

// ---------------------------------------------------------------------------
// Packets of any kind
// ---------------------------------------------------------------------------

/// A packet as received or sent.
#[derive(Clone, Debug)]
pub enum Header {
    Ack(AckHeader),
    Read(RWHeader<ReadHeader>),
    Write(RWHeader<WriteHeader>),
    Data(DataHeader),
    Error(ErrorHeader),
    /// A packet whose opcode is none of the five; it holds the packet's bytes.
    Invalid(Vec<u8>),
}

/// What a packet says, with strings as sequences.
pub enum PacketView {
    Ack(int),
    Read(Seq<char>, RWMode),
    Write(Seq<char>, RWMode),
    Data(int, Seq<u8>),
    Error(ErrorCode, Seq<char>),
    Invalid(Seq<u8>),
}

impl View for Header {
    type V = PacketView;

    open spec fn view(&self) -> PacketView {
        match self {
            Header::Ack(h) => PacketView::Ack(h.block_number as int),
            Header::Read(h) => PacketView::Read(h.filename@, h.mode),
            Header::Write(h) => PacketView::Write(h.filename@, h.mode),
            Header::Data(h) => PacketView::Data(h.block_number as int, h.payload()),
            Header::Error(h) => PacketView::Error(h.error_code, h.error_message@),
            Header::Invalid(b) => PacketView::Invalid(b@),
        }
    }
}

/// The encoding of a packet (an `Invalid` one has none; it is given as empty).
pub open spec fn encode_packet(p: PacketView) -> Seq<u8> {
    match p {
        PacketView::Ack(bn) => ack_bytes(bn),
        PacketView::Read(name, mode) => rw_bytes(OPCODE_RRQ, utf8_of(name), mode),
        PacketView::Write(name, mode) => rw_bytes(OPCODE_WRQ, utf8_of(name), mode),
        PacketView::Data(bn, payload) => data_bytes(bn, payload),
        PacketView::Error(code, message) => error_bytes(code, utf8_of(message)),
        PacketView::Invalid(_) => Seq::empty(),
    }
}

/// What decoding a datagram yields: the opcode in byte 1 selects the kind.
pub open spec fn decode_packet(src: Seq<u8>) -> Result<PacketView, ErrorView> {
    if src.len() < 2 {
        Err(ErrorView::InvalidHeaderLen)
    } else if src[1] == OPCODE_RRQ {
        match rw_decode(src) {
            Ok((name, mode)) => Ok(PacketView::Read(name, mode)),
            Err(e) => Err(e),
        }
    } else if src[1] == OPCODE_WRQ {
        match rw_decode(src) {
            Ok((name, mode)) => Ok(PacketView::Write(name, mode)),
            Err(e) => Err(e),
        }
    } else if src[1] == OPCODE_ACK {
        match ack_decode(src) {
            Ok(bn) => Ok(PacketView::Ack(bn)),
            Err(e) => Err(e),
        }
    } else if src[1] == OPCODE_ERROR {
        match error_decode(src) {
            Ok((code, message)) => Ok(PacketView::Error(code, message)),
            Err(e) => Err(e),
        }
    } else if src[1] == OPCODE_DATA {
        match data_decode(src) {
            Ok((bn, payload)) => Ok(PacketView::Data(bn, payload)),
            Err(e) => Err(e),
        }
    } else {
        Ok(PacketView::Invalid(src))
    }
}

/// The packets that survive encoding: block numbers fit in 24 bits, payloads fit in a
/// block, filenames are non-empty, and no string holds a zero byte.
pub open spec fn packet_wf(p: PacketView) -> bool {
    match p {
        PacketView::Ack(bn) => 0 <= bn < BLOCK_SPACE,
        PacketView::Read(name, _) => filename_ok(name),
        PacketView::Write(name, _) => filename_ok(name),
        PacketView::Data(bn, payload) => 0 <= bn < BLOCK_SPACE && payload.len() <= MAX_DATA_LEN,
        PacketView::Error(_, message) => !utf8_of(message).contains(0),
        PacketView::Invalid(_) => false,
    }
}

impl Header {
    /// Decodes a datagram. A packet with an unknown opcode comes back as `Invalid`.
    pub fn from_raw(src: &[u8]) -> (r: Result<Header, TFTPError>)
        ensures
            match r {
                Ok(h) => decode_packet(src@) == Ok::<PacketView, ErrorView>(h@),
                Err(e) => decode_packet(src@) == Err::<PacketView, ErrorView>(e@),
            },
            r matches Ok(Header::Data(d)) ==> d.wf() && d.data@.len() == MAX_DATA_LEN,
    {
        if src.len() < 2 {
            return Err(TFTPError::InvalidHeaderLen);
        }
        let op = src[1];
        if op == OPCODE_RRQ {
            match RWHeader::<ReadHeader>::from_raw(src) {
                Ok(h) => Ok(Header::Read(h)),
                Err(e) => Err(e),
            }
        } else if op == OPCODE_WRQ {
            match RWHeader::<WriteHeader>::from_raw(src) {
                Ok(h) => Ok(Header::Write(h)),
                Err(e) => Err(e),
            }
        } else if op == OPCODE_ACK {
            match AckHeader::from_raw(src) {
                Ok(h) => Ok(Header::Ack(h)),
                Err(e) => Err(e),
            }
        } else if op == OPCODE_ERROR {
            match ErrorHeader::from_raw(src) {
                Ok(h) => Ok(Header::Error(h)),
                Err(e) => Err(e),
            }
        } else if op == OPCODE_DATA {
            match DataHeader::from_raw(src) {
                Ok(h) => Ok(Header::Data(h)),
                Err(e) => Err(e),
            }
        } else {
            let all = copy_bytes(src, 0, src.len());
            assert(src@.subrange(0, src@.len() as int) =~= src@);
            Ok(Header::Invalid(all))
        }
    }

    /// Encodes a packet; an `Invalid` one cannot be sent.
    pub fn into_raw_request(self) -> (r: Vec<u8>)
        requires
            !(self is Invalid),
            self matches Header::Data(d) ==> d.wf(),
        ensures
            r@ == encode_packet(self@),
    {
        match self {
            Header::Ack(h) => h.into_raw(),
            Header::Read(h) => h.into_raw(),
            Header::Write(h) => h.into_raw(),
            Header::Error(h) => h.into_raw(),
            Header::Data(h) => h.into_raw(),
            Header::Invalid(_) => Vec::new(),
        }
    }
}

/// Decoding the encoding of any well-formed packet gives the packet back. (Error codes
/// from 8 on cannot be held by `ErrorCode`: they are read as `Undefined` on decoding.)
pub proof fn lemma_packet_round_trip(p: PacketView)
    requires
        packet_wf(p),
    ensures
        decode_packet(encode_packet(p)) == Ok::<PacketView, ErrorView>(p),
{
    match p {
        PacketView::Ack(bn) => lemma_ack_round_trip(bn),
        PacketView::Read(name, mode) => lemma_rw_round_trip(OPCODE_RRQ, name, mode),
        PacketView::Write(name, mode) => lemma_rw_round_trip(OPCODE_WRQ, name, mode),
        PacketView::Data(bn, payload) => lemma_data_round_trip(bn, payload),
        PacketView::Error(code, message) => lemma_error_round_trip(code, message),
        PacketView::Invalid(_) => {},
    }
}

} // verus!
