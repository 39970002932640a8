//! Encoding of git's `packetline` format: four lowercase hex digits giving the length of the
//! line including themselves, then the payload; and the special flush, delimiter and
//! response-end lines.
use vstd::prelude::*;

verus! {

/// The largest payload a packet line can hold: 65520 bytes minus the four length digits.
pub const MAX_DATA_LEN: usize = 65516;

/// The error returned when a line cannot be encoded.
#[derive(Debug, Clone, Copy, PartialEq, Eq, Structural)]
pub enum Error {
    /// The prefix, data and suffix together exceed [`MAX_DATA_LEN`]; `len` is their length.
    DataTooLong { len: usize },
    /// Lines without data are invalid.
    EmptyLine,
}

/// The channel of a side-band message.
#[derive(Debug, Clone, Copy, PartialEq, Eq, Structural)]
pub enum Channel {
    /// The pack data itself.
    Data,
    /// Progress messages to show to the user.
    Progress,
    /// An error message, after which the remote stops.
    Error,
}

impl Channel {
    pub open spec fn spec_to_byte(self) -> u8 {
        match self {
            Channel::Data => 1,
            Channel::Progress => 2,
            Channel::Error => 3,
        }
    }

    /// The byte that marks this channel at the start of a side-band line.
    pub fn to_byte(&self) -> (r: u8)
        ensures
            r == self.spec_to_byte(),
    {
        match self {
            Channel::Data => 1,
            Channel::Progress => 2,
            Channel::Error => 3,
        }
    }
}

/// A packet line, as borrowed from its data.
#[derive(Debug, Clone, Copy, PartialEq, Eq)]
pub enum PacketLineRef<'a> {
    /// A line with data.
    Data(&'a [u8]),
    /// The end of a message.
    Flush,
    /// The separator between sections of a message.
    Delimiter,
    /// The end of a response in stateless transports.
    ResponseEnd,
}

/// A side-band line, as borrowed from its data.
#[derive(Debug, Clone, Copy, PartialEq, Eq)]
pub enum BandRef<'a> {
    /// Pack data.
    Data(&'a [u8]),
    /// A progress message.
    Progress(&'a [u8]),
    /// An error message.
    Error(&'a [u8]),
}

/// An error message sent to the remote, without its marker.
#[derive(Debug, Clone, Copy, PartialEq, Eq)]
pub struct ErrorRef<'a>(pub &'a [u8]);

/// A line of text.
#[derive(Debug, Clone, Copy, PartialEq, Eq)]
pub struct TextRef<'a>(pub &'a [u8]);

/// The lowercase hexadecimal digit for `v`, which is below 16.
pub open spec fn lower_hex_digit(v: int) -> u8 {
    if v < 10 {
        (48 + v) as u8
    } else {
        (87 + v) as u8
    }
}

/// The four lowercase hexadecimal digits of `v`, most significant first.
pub open spec fn u16_hex(v: u16) -> Seq<u8> {
    let v = v as int;
    seq![
        lower_hex_digit(v / 4096),
        lower_hex_digit((v / 256) % 16),
        lower_hex_digit((v / 16) % 16),
        lower_hex_digit(v % 16),
    ]
}

/// Calls `faster_hex::hex_encode()` on the big-endian bytes of `value`, which writes two lowercase
/// hex digits per byte, most significant nibble first; the contract states the four digits.
#[verifier::external_body]
pub(crate) fn u16_to_hex(value: u16) -> (r: [u8; 4])
    ensures
        r@ == u16_hex(value),
{
    let mut buf = [0u8; 4];
    faster_hex::hex_encode(&value.to_be_bytes(), &mut buf).expect("two bytes to 4 hex chars never fails");
    buf
}

/// The flush line `0000`.
pub open spec fn flush_line() -> Seq<u8> {
    seq![48u8, 48u8, 48u8, 48u8]
}

/// The delimiter line `0001`.
pub open spec fn delimiter_line() -> Seq<u8> {
    seq![48u8, 48u8, 48u8, 49u8]
}

/// The response-end line `0002`.
pub open spec fn response_end_line() -> Seq<u8> {
    seq![48u8, 48u8, 48u8, 50u8]
}

/// The marker `ERR ` in front of error messages.
pub open spec fn err_prefix() -> Seq<u8> {
    seq![69u8, 82u8, 82u8, 32u8]
}

/// The line feed that ends a text line.
pub open spec fn newline() -> Seq<u8> {
    seq![10u8]
}

/// What encoding `prefix`, `data` and `suffix` as one line yields: the bytes to append and the
/// amount of bytes, or the error.
pub open spec fn encoded_line(prefix: Seq<u8>, data: Seq<u8>, suffix: Seq<u8>) -> Result<
    (Seq<u8>, usize),
    Error,
> {
    let len = prefix.len() + data.len() + suffix.len();
    if len > MAX_DATA_LEN {
        Err(Error::DataTooLong { len: len as usize })
    } else if data.len() == 0 {
        Err(Error::EmptyLine)
    } else {
        Ok((u16_hex((len + 4) as u16) + prefix + data + suffix, (len + 4) as usize))
    }
}

/// The effect of an encoding on `out`: the line is appended where it succeeds, nothing is
/// written where it fails.
pub open spec fn appended(
    old_out: Seq<u8>,
    new_out: Seq<u8>,
    r: Result<usize, Error>,
    line: Result<(Seq<u8>, usize), Error>,
) -> bool {
    match line {
        Ok((bytes, n)) => r == Ok::<usize, Error>(n) && new_out == old_out + bytes,
        Err(e) => r == Err::<usize, Error>(e) && new_out == old_out,
    }
}

/// Append all of `bytes` to `out`.
fn push_all(out: &mut Vec<u8>, bytes: &[u8])
    ensures
        final(out)@ == old(out)@ + bytes@,
{
    let mut i: usize = 0;
    while i < bytes.len()
        invariant
            i <= bytes.len(),
            out@ == old(out)@ + bytes@.subrange(0, i as int),
        decreases bytes.len() - i,
    {
        out.push(bytes[i]);
        i += 1;
        assert(bytes@.subrange(0, i as int) == bytes@.subrange(0, i - 1) + seq![bytes@[i - 1]]);
    }
    assert(bytes@.subrange(0, bytes.len() as int) == bytes@);
}

/// Write `data` between `prefix` and `suffix` as one line to `out`, returning the amount of bytes written.
pub fn prefixed_and_suffixed_data_to_write(
    prefix: &[u8],
    data: &[u8],
    suffix: &[u8],
    out: &mut Vec<u8>,
) -> (r: Result<usize, Error>)
    requires
        prefix.len() + data.len() + suffix.len() <= usize::MAX,
    ensures
        appended(old(out)@, final(out)@, r, encoded_line(prefix@, data@, suffix@)),
{
    let data_len = prefix.len() + data.len() + suffix.len();
    if data_len > MAX_DATA_LEN {
        return Err(Error::DataTooLong { len: data_len });
    }
    if data.len() == 0 {
        return Err(Error::EmptyLine);
    }
    let data_len = data_len + 4;
    let buf = u16_to_hex(data_len as u16);
    push_all(out, &buf);
    push_all(out, prefix);
    push_all(out, data);
    push_all(out, suffix);
    assert(final(out)@ == old(out)@ + (u16_hex(data_len as u16) + prefix@ + data@ + suffix@));
    Ok(data_len)
}

/// Write `data` after `prefix` as one line to `out`, returning the amount of bytes written.
pub fn prefixed_data_to_write(prefix: &[u8], data: &[u8], out: &mut Vec<u8>) -> (r: Result<usize, Error>)
    requires
        prefix.len() + data.len() <= usize::MAX,
    ensures
        appended(old(out)@, final(out)@, r, encoded_line(prefix@, data@, seq![])),
{
    let empty: [u8; 0] = [];
    let r = prefixed_and_suffixed_data_to_write(prefix, data, &empty, out);
    assert(empty@ == Seq::<u8>::empty());
    r
}

/// Write a response-end message to `out`.
pub fn response_end_to_write(out: &mut Vec<u8>) -> (r: usize)
    ensures
        r == 4,
        final(out)@ == old(out)@ + response_end_line(),
{
    out.push(48);
    out.push(48);
    out.push(48);
    out.push(50);
    assert(final(out)@ == old(out)@ + response_end_line());
    4
}

/// Write a delim message to `out`.
pub fn delim_to_write(out: &mut Vec<u8>) -> (r: usize)
    ensures
        r == 4,
        final(out)@ == old(out)@ + delimiter_line(),
{
    out.push(48);
    out.push(48);
    out.push(48);
    out.push(49);
    assert(final(out)@ == old(out)@ + delimiter_line());
    4
}

/// Write a flush message to `out`.
pub fn flush_to_write(out: &mut Vec<u8>) -> (r: usize)
    ensures
        r == 4,
        final(out)@ == old(out)@ + flush_line(),
{
    out.push(48);
    out.push(48);
    out.push(48);
    out.push(48);
    assert(final(out)@ == old(out)@ + flush_line());
    4
}

/// Write an error `message` to `out`, marked so that it can be told apart from data.
pub fn error_to_write(message: &[u8], out: &mut Vec<u8>) -> (r: Result<usize, Error>)
    requires
        message.len() + 4 <= usize::MAX,
    ensures
        appended(old(out)@, final(out)@, r, encoded_line(err_prefix(), message@, seq![])),
{
    let prefix: [u8; 4] = [69, 82, 82, 32];
    assert(prefix@ == err_prefix());
    prefixed_data_to_write(&prefix, message, out)
}

/// Serialize `error` to `out`.
///
/// This includes a marker to allow decoding it outside a sideband channel, returning the amount of bytes written.
pub fn write_error(error: &ErrorRef<'_>, out: &mut Vec<u8>) -> (r: Result<usize, Error>)
    requires
        error.0.len() + 4 <= usize::MAX,
    ensures
        appended(old(out)@, final(out)@, r, encoded_line(err_prefix(), error.0@, seq![])),
{
    error_to_write(error.0, out)
}

/// Write `data` of `kind` to `out` using sideband encoding.
pub fn band_to_write(kind: Channel, data: &[u8], out: &mut Vec<u8>) -> (r: Result<usize, Error>)
    requires
        data.len() + 1 <= usize::MAX,
    ensures
        appended(old(out)@, final(out)@, r, encoded_line(seq![kind.spec_to_byte()], data@, seq![])),
{
    let prefix: [u8; 1] = [kind.to_byte()];
    assert(prefix@ == seq![kind.spec_to_byte()]);
    prefixed_data_to_write(&prefix, data, out)
}

/// The channel and data of a side-band line.
pub open spec fn band_parts(band: BandRef) -> (Channel, Seq<u8>) {
    match band {
        BandRef::Data(d) => (Channel::Data, d@),
        BandRef::Progress(d) => (Channel::Progress, d@),
        BandRef::Error(d) => (Channel::Error, d@),
    }
}

/// Serialize `band` to `out`, returning the amount of bytes written.
pub fn write_band(band: &BandRef<'_>, out: &mut Vec<u8>) -> (r: Result<usize, Error>)
    requires
        band_parts(*band).1.len() + 1 <= usize::MAX,
    ensures
        appended(
            old(out)@,
            final(out)@,
            r,
            encoded_line(seq![band_parts(*band).0.spec_to_byte()], band_parts(*band).1, seq![]),
        ),
{
    match band {
        BandRef::Data(d) => band_to_write(Channel::Data, d, out),
        BandRef::Progress(d) => band_to_write(Channel::Progress, d, out),
        BandRef::Error(d) => band_to_write(Channel::Error, d, out),
    }
}

/// Write a `data` message to `out`.
pub fn data_to_write(data: &[u8], out: &mut Vec<u8>) -> (r: Result<usize, Error>)
    ensures
        appended(old(out)@, final(out)@, r, encoded_line(seq![], data@, seq![])),
{
    let empty: [u8; 0] = [];
    assert(empty@ == Seq::<u8>::empty());
    prefixed_data_to_write(&empty, data, out)
}

/// What writing `line` appends: the fixed four bytes of the special lines, or the encoded data.
pub open spec fn encoded_packet_line(line: PacketLineRef) -> Result<(Seq<u8>, usize), Error> {
    match line {
        PacketLineRef::Data(d) => encoded_line(seq![], d@, seq![]),
        PacketLineRef::Flush => Ok((flush_line(), 4usize)),
        PacketLineRef::Delimiter => Ok((delimiter_line(), 4usize)),
        PacketLineRef::ResponseEnd => Ok((response_end_line(), 4usize)),
    }
}

/// Serialize `line` to `out` in git `packetline` format, returning the amount of bytes written to `out`.
pub fn write_packet_line(line: &PacketLineRef<'_>, out: &mut Vec<u8>) -> (r: Result<usize, Error>)
    ensures
        appended(old(out)@, final(out)@, r, encoded_packet_line(*line)),
{
    match line {
        PacketLineRef::Data(d) => data_to_write(d, out),
        PacketLineRef::Flush => Ok(flush_to_write(out)),
        PacketLineRef::Delimiter => Ok(delim_to_write(out)),
        PacketLineRef::ResponseEnd => Ok(response_end_to_write(out)),
    }
}

/// The line feed to put after `text` so that it ends in one: none where it already does.
pub open spec fn text_suffix(text: Seq<u8>) -> Seq<u8> {
    if text.len() > 0 && text.last() == 10 {
        seq![]
    } else {
        newline()
    }
}

/// Write a `text` message to `out`, which is assured to end in a newline: one is appended where
/// `text` doesn't end in one.
pub fn text_to_write(text: &[u8], out: &mut Vec<u8>) -> (r: Result<usize, Error>)
    requires
        text.len() + 1 <= usize::MAX,
    ensures
        appended(old(out)@, final(out)@, r, encoded_line(seq![], text@, text_suffix(text@))),
{
    let empty: [u8; 0] = [];
    assert(empty@ == Seq::<u8>::empty());
    if text.len() > 0 && text[text.len() - 1] == 10 {
        prefixed_and_suffixed_data_to_write(&empty, text, &empty, out)
    } else {
        let line_feed: [u8; 1] = [10];
        assert(line_feed@ == newline());
        prefixed_and_suffixed_data_to_write(&empty, text, &line_feed, out)
    }
}

/// Serialize `text` to `out`, appending a newline if there is none, returning the amount of bytes written.
pub fn write_text(text: &TextRef<'_>, out: &mut Vec<u8>) -> (r: Result<usize, Error>)
    requires
        text.0.len() + 1 <= usize::MAX,
    ensures
        appended(old(out)@, final(out)@, r, encoded_line(seq![], text.0@, text_suffix(text.0@))),
{
    text_to_write(text.0, out)
}

/// A successfully encoded line is as long as the amount that is returned, at most 65520 bytes,
/// and holds the prefix, data and suffix right after its four length digits.
pub proof fn lemma_encoded_line_length(prefix: Seq<u8>, data: Seq<u8>, suffix: Seq<u8>)
    ensures
        encoded_line(prefix, data, suffix) matches Ok((bytes, n)) ==> {
            &&& bytes.len() == n
            &&& n <= MAX_DATA_LEN + 4
            &&& bytes.subrange(4, n as int) == prefix + data + suffix
        },
{
    if let Ok((bytes, n)) = encoded_line(prefix, data, suffix) {
        let len = prefix.len() + data.len() + suffix.len();
        assert(bytes == u16_hex((len + 4) as u16) + prefix + data + suffix);
        assert(bytes.subrange(4, n as int) =~= prefix + data + suffix);
    }
}

/// Text lines always end in a newline, whether or not the text brought one.
pub proof fn lemma_text_line_ends_in_newline(text: Seq<u8>)
    ensures
        encoded_line(seq![], text, text_suffix(text)) matches Ok((bytes, n)) ==> bytes.last() == 10,
{
    if let Ok((bytes, n)) = encoded_line(seq![], text, text_suffix(text)) {
        let len = text.len() + text_suffix(text).len();
        assert(bytes == u16_hex((len + 4) as u16) + seq![] + text + text_suffix(text));
    }
}

} // verus!
