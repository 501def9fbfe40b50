//! HLS media playlists: the active-key state machine and segment decoding.

use aes::cipher::block_padding::Pkcs7;
use aes::cipher::generic_array::GenericArray;
use aes::cipher::{BlockDecryptMut, KeyIvInit};
use crate::text::str_eq;
use vstd::prelude::*;

verus! {

#[verifier::external_type_specification]
pub struct ExKeyMethod(m3u8_rs::KeyMethod);

#[verifier::external_type_specification]
pub struct ExKey(m3u8_rs::Key);

/// The keyformat namespace of a key; an absent `KEYFORMAT` means `identity`.
pub open spec fn keyformat_of(k: m3u8_rs::Key) -> Seq<char> {
    match k.keyformat {
        Some(f) => f@,
        None => "identity"@,
    }
}

/// The active key after a segment whose own declared key is `seg`, when `cur` was active.
pub open spec fn next_active_key(seg: Option<m3u8_rs::Key>, cur: Option<m3u8_rs::Key>) -> Option<
    m3u8_rs::Key,
> {
    match seg {
        Some(k) => if cur is None || keyformat_of(cur->0) == keyformat_of(k) {
            Some(k)
        } else {
            cur
        },
        None => cur,
    }
}

/// The key active for segment `i` of a playlist whose segments declare the keys
/// `keys`: the fold of `next_active_key` over segments `0..=i`, from no key.
pub open spec fn active_key_at(keys: Seq<Option<m3u8_rs::Key>>, i: int) -> Option<m3u8_rs::Key>
    decreases i + 1,
{
    if i < 0 || i >= keys.len() {
        None
    } else {
        next_active_key(keys[i], active_key_at(keys, i - 1))
    }
}

/// The keys that the segments of a playlist declare, in order.
pub open spec fn declared_keys(segments: Seq<MediaSegment>) -> Seq<Option<m3u8_rs::Key>> {
    segments.map_values(|s: MediaSegment| s.key)
}

/// The key an optional reference points to.
pub open spec fn key_of_ref(k: Option<&m3u8_rs::Key>) -> Option<m3u8_rs::Key> {
    match k {
        Some(r) => Some(*r),
        None => None,
    }
}

/// The value of a hexadecimal digit, or -1 for any other character.
pub open spec fn hex_digit_value(c: char) -> int {
    if '0' <= c && c <= '9' {
        c as int - '0' as int
    } else if 'a' <= c && c <= 'f' {
        c as int - 'a' as int + 10
    } else if 'A' <= c && c <= 'F' {
        c as int - 'A' as int + 10
    } else {
        -1
    }
}

pub open spec fn all_hex(s: Seq<char>) -> bool {
    forall|i: int| 0 <= i < s.len() ==> hex_digit_value(#[trigger] s[i]) >= 0
}

/// The number that the hexadecimal digits `s` write, most significant first.
pub open spec fn hex_value(s: Seq<char>) -> nat
    decreases s.len(),
{
    if s.len() == 0 {
        0
    } else {
        (hex_value(s.drop_last()) * 16 + hex_digit_value(s.last())) as nat
    }
}

/// The value of an `IV` attribute: `0x` or `0X`, then one or more hexadecimal
/// digits whose value fits in 128 bits.
pub open spec fn iv_value(s: Seq<char>) -> Option<u128> {
    let digits = s.subrange(2, s.len() as int);
    if s.len() > 2 && s[0] == '0' && (s[1] == 'x' || s[1] == 'X') && all_hex(digits)
        && hex_value(digits) <= u128::MAX {
        Some(hex_value(digits) as u128)
    } else {
        None
    }
}

/// Byte `i` (0 is the most significant) of the 16-byte big-endian encoding of `v`.
pub open spec fn be_byte(v: u128, i: int) -> u8 {
    ((v >> ((8 * (15 - i)) as u128)) & 0xffu128) as u8
}

/// The 16-byte big-endian encoding of `v`.
pub open spec fn be_bytes_of(v: u128) -> Seq<u8> {
    Seq::new(16, |i: int| be_byte(v, i))
}

/// The URI of the key material of an AES-128 key; other methods are refused.
pub open spec fn key_uri_result(k: m3u8_rs::Key) -> Result<Seq<char>, HlsError> {
    match k.method {
        m3u8_rs::KeyMethod::AES128 => match k.uri {
            Some(u) => Ok(u@),
            None => Err(HlsError::MissingKeyUri),
        },
        _ => Err(HlsError::UnsupportedMethod),
    }
}

/// The IV for a segment with absolute sequence number `seq`: the key's explicit
/// `IV` where it declares one, else the big-endian encoding of `seq`.
pub open spec fn segment_iv_result(k: m3u8_rs::Key, seq: u128) -> Result<Seq<u8>, HlsError> {
    match k.iv {
        Some(t) => match iv_value(t@) {
            Some(v) => Ok(be_bytes_of(v)),
            None => Err(HlsError::InvalidIv),
        },
        None => Ok(be_bytes_of(seq)),
    }
}

/// What AES-128 CBC decryption with PKCS#7 unpadding makes of `data` under the
/// 16-byte `key` and `iv`; `None` where the padding is invalid.
pub uninterp spec fn aes128_cbc_plain(key: Seq<u8>, iv: Seq<u8>, data: Seq<u8>) -> Option<Seq<u8>>;

/// Relies on cbc::Decryptor::<aes::Aes128>::decrypt_padded_vec_mut::<Pkcs7>: CBC
/// decryption with a fresh cipher state, and removal of PKCS#7 padding; data
/// that is not a whole number of 16-byte blocks is refused.
#[verifier::external_body]
fn aes128_cbc_decrypt(key: &[u8], iv: &[u8], data: &[u8]) -> (r: Option<Vec<u8>>)
    requires
        key@.len() == 16,
        iv@.len() == 16,
    ensures
        match r {
            Some(p) => aes128_cbc_plain(key@, iv@, data@) == Some(p@),
            None => aes128_cbc_plain(key@, iv@, data@) is None,
        },
        data@.len() % 16 != 0 ==> r is None,
{
    let de = cbc::Decryptor::<aes::Aes128>::new(GenericArray::from_slice(key), GenericArray::from_slice(iv));
    de.decrypt_padded_vec_mut::<Pkcs7>(data).ok()
}

/// What decrypting segment data `data` with absolute sequence number `seq` under
/// key `k` gives, where `key_material` was fetched from the key's URI.
pub open spec fn decrypt_result(
    k: m3u8_rs::Key,
    seq: u128,
    key_material: Seq<u8>,
    data: Seq<u8>,
) -> Result<Seq<u8>, HlsError> {
    match key_uri_result(k) {
        Err(e) => Err(e),
        Ok(_) => match segment_iv_result(k, seq) {
            Err(e) => Err(e),
            Ok(iv) => if key_material.len() != 16 {
                Err(HlsError::KeyLength)
            } else {
                match aes128_cbc_plain(key_material, iv, data) {
                    Some(p) => Ok(p),
                    None => Err(HlsError::DecryptFailed),
                }
            },
        },
    }
}

/// `16` to the power `n`.
pub open spec fn pow16(n: nat) -> nat
    decreases n,
{
    if n == 0 {
        1
    } else {
        16 * pow16((n - 1) as nat)
    }
}

proof fn lemma_hex_value_bound(s: Seq<char>)
    requires
        all_hex(s),
    ensures
        hex_value(s) < pow16(s.len()),
    decreases s.len(),
{
    if s.len() > 0 {
        let init = s.drop_last();
        assert(all_hex(init)) by {
            assert forall|i: int| 0 <= i < init.len() implies hex_digit_value(#[trigger] init[i]) >= 0 by {
                assert(init[i] == s[i]);
            }
        }
        lemma_hex_value_bound(init);
        let a = hex_value(init);
        let b = pow16(init.len());
        let d = hex_digit_value(s.last());
        assert(0 <= d < 16);
        assert(a * 16 + d < b * 16) by (nonlinear_arith)
            requires
                a < b,
                0 <= d < 16,
        ;
    }
}

/// An explicit IV written as `0x` (or `0X`) and exactly 32 hexadecimal digits
/// always decodes, to the 128-bit number the digits write.
pub proof fn lemma_iv_of_32_digits(s: Seq<char>)
    requires
        s.len() == 34,
        s[0] == '0',
        s[1] == 'x' || s[1] == 'X',
        all_hex(s.subrange(2, 34)),
    ensures
        iv_value(s) == Some(hex_value(s.subrange(2, 34)) as u128),
{
    lemma_hex_value_bound(s.subrange(2, 34));
    assert(pow16(32) == u128::MAX as nat + 1) by {
        reveal_with_fuel(pow16, 33);
    }
}

/// With an explicit IV the decryption of a segment does not depend on its
/// sequence number.
pub proof fn lemma_explicit_iv_ignores_sequence(
    k: m3u8_rs::Key,
    seq1: u128,
    seq2: u128,
    key_material: Seq<u8>,
    data: Seq<u8>,
)
    requires
        k.iv is Some,
    ensures
        decrypt_result(k, seq1, key_material, data) == decrypt_result(k, seq2, key_material, data),
{
}

/// The value of one hexadecimal digit.
fn hex_digit(c: char) -> (r: Option<u8>)
    ensures
        match r {
            Some(d) => hex_digit_value(c) == d as int && d < 16,
            None => hex_digit_value(c) < 0,
        },
{
    if '0' <= c && c <= '9' {
        Some((c as u32 - '0' as u32) as u8)
    } else if 'a' <= c && c <= 'f' {
        Some((c as u32 - 'a' as u32 + 10) as u8)
    } else if 'A' <= c && c <= 'F' {
        Some((c as u32 - 'A' as u32 + 10) as u8)
    } else {
        None
    }
}

proof fn lemma_hex_prefix_le(s: Seq<char>, j: int)
    requires
        0 <= j <= s.len(),
        all_hex(s),
    ensures
        hex_value(s.subrange(0, j)) <= hex_value(s),
    decreases s.len() - j,
{
    if j < s.len() {
        lemma_hex_prefix_le(s, j + 1);
        assert(s.subrange(0, j + 1).drop_last() == s.subrange(0, j));
        assert(hex_digit_value(s[j]) >= 0);
    } else {
        assert(s.subrange(0, j) == s);
    }
}

/// Parses an `IV` attribute value (`0x` or `0X`, then hexadecimal digits).
pub fn parse_iv(s: &str) -> (r: Option<u128>)
    ensures
        r == iv_value(s@),
{
    let n = s.unicode_len();
    if n <= 2 {
        return None;
    }
    let c0 = s.get_char(0);
    let c1 = s.get_char(1);
    if c0 != '0' || (c1 != 'x' && c1 != 'X') {
        return None;
    }
    let ghost digits = s@.subrange(2, n as int);
    let mut acc: u128 = 0;
    let mut i: usize = 2;
    while i < n
        invariant
            n == s@.len(),
            2 <= i <= n,
            digits == s@.subrange(2, n as int),
            all_hex(digits.subrange(0, i - 2)),
            acc == hex_value(digits.subrange(0, i - 2)),
        decreases n - i,
    {
        let c = s.get_char(i);
        assert(digits.subrange(0, i - 1).drop_last() == digits.subrange(0, i - 2));
        assert(digits[i - 2] == c);
        match hex_digit(c) {
            None => {
                assert(!all_hex(digits));
                return None;
            },
            Some(d) => {
                if acc >= 0x1000_0000_0000_0000_0000_0000_0000_0000u128 {
                    proof {
                        if all_hex(digits) {
                            lemma_hex_prefix_le(digits, i - 1);
                        }
                    }
                    return None;
                }
                acc = acc * 16 + d as u128;
            },
        }
        i += 1;
    }
    assert(digits.subrange(0, n - 2) == digits);
    Some(acc)
}

/// The 16-byte big-endian encoding of `v`.
pub fn be_bytes(v: u128) -> (r: Vec<u8>)
    ensures
        r@ == be_bytes_of(v),
{
    let mut out: Vec<u8> = Vec::new();
    let mut i: usize = 0;
    while i < 16
        invariant
            i <= 16,
            out@.len() == i,
            forall|j: int| 0 <= j < i ==> out@[j] == be_byte(v, j),
        decreases 16 - i,
    {
        let shift: u128 = (8 * (15 - i)) as u128;
        out.push(((v >> shift) & 0xffu128) as u8);
        i += 1;
    }
    assert(out@ == be_bytes_of(v));
    out
}

/// The URI of the key material of `k`, which must be an AES-128 key.
pub fn key_uri(k: &m3u8_rs::Key) -> (r: Result<&str, HlsError>)
    ensures
        match r {
            Ok(u) => key_uri_result(*k) == Ok::<Seq<char>, HlsError>(u@),
            Err(e) => key_uri_result(*k) == Err::<Seq<char>, HlsError>(e),
        },
{
    match &k.method {
        m3u8_rs::KeyMethod::AES128 => match &k.uri {
            Some(u) => Ok(u.as_str()),
            None => Err(HlsError::MissingKeyUri),
        },
        _ => Err(HlsError::UnsupportedMethod),
    }
}

/// The IV for the segment with absolute sequence number `seq` under key `k`.
pub fn segment_iv(k: &m3u8_rs::Key, seq: u128) -> (r: Result<Vec<u8>, HlsError>)
    ensures
        match r {
            Ok(iv) => segment_iv_result(*k, seq) == Ok::<Seq<u8>, HlsError>(iv@),
            Err(e) => segment_iv_result(*k, seq) == Err::<Seq<u8>, HlsError>(e),
        },
{
    match &k.iv {
        Some(t) => match parse_iv(t.as_str()) {
            Some(v) => Ok(be_bytes(v)),
            None => Err(HlsError::InvalidIv),
        },
        None => Ok(be_bytes(seq)),
    }
}

/// Decrypts the data of the segment with absolute sequence number `seq` under
/// key `k`, with `key_material` fetched from the key's URI. The CBC state starts
/// afresh for each segment.
pub fn decrypt_segment(k: &m3u8_rs::Key, seq: u128, key_material: &[u8], data: &[u8]) -> (r:
    Result<Vec<u8>, HlsError>)
    ensures
        match r {
            Ok(p) => decrypt_result(*k, seq, key_material@, data@) == Ok::<Seq<u8>, HlsError>(
                p@,
            ),
            Err(e) => decrypt_result(*k, seq, key_material@, data@) == Err::<Seq<u8>, HlsError>(
                e,
            ),
        },
{
    match key_uri(k) {
        Err(e) => return Err(e),
        Ok(_) => {},
    }
    let iv = match segment_iv(k, seq) {
        Err(e) => return Err(e),
        Ok(iv) => iv,
    };
    if key_material.len() != 16 {
        return Err(HlsError::KeyLength);
    }
    match aes128_cbc_decrypt(key_material, iv.as_slice(), data) {
        Some(p) => Ok(p),
        None => Err(HlsError::DecryptFailed),
    }
}

/// The keyformat namespace of `k`, `identity` where none is declared.
pub fn keyformat(k: &m3u8_rs::Key) -> (r: &str)
    ensures
        r@ == keyformat_of(*k),
{
    match &k.keyformat {
        Some(f) => f.as_str(),
        None => "identity",
    }
}

/// Why a playlist could not be used or a segment could not be decoded.
#[derive(Debug, Clone, Copy, PartialEq, Eq, Structural)]
pub enum HlsError {
    /// The playlist bytes are not an HLS playlist.
    MalformedPlaylist,
    /// The playlist is a master (variant) playlist, which is not supported.
    MasterPlaylist,
    /// A URL could not be parsed or joined.
    InvalidUrl,
    /// An AES-128 key declares no `URI`.
    MissingKeyUri,
    /// A declared `IV` is not a `0x`-prefixed hexadecimal number of at most 128 bits.
    InvalidIv,
    /// The key method is not AES-128.
    UnsupportedMethod,
    /// The fetched key material is not exactly 16 bytes.
    KeyLength,
    /// The ciphertext does not decrypt under CBC with PKCS#7 padding.
    DecryptFailed,
}

/// One segment of a media playlist: its URI and the key its `EXT-X-KEY` tag declared.
pub struct MediaSegment {
    pub uri: String,
    pub key: Option<m3u8_rs::Key>,
}

impl View for MediaSegment {
    type V = (Seq<char>, Option<m3u8_rs::Key>);

    open spec fn view(&self) -> Self::V {
        (self.uri@, self.key)
    }
}

/// A parsed media playlist: the sequence number of its first segment, and its segments.
pub struct MediaPlaylist {
    pub media_sequence: u64,
    pub segments: Vec<MediaSegment>,
}

impl View for MediaPlaylist {
    type V = (u64, Seq<(Seq<char>, Option<m3u8_rs::Key>)>);

    open spec fn view(&self) -> Self::V {
        (self.media_sequence, self.segments@.map_values(|s: MediaSegment| s@))
    }
}

/// What the m3u8 parser makes of some bytes: `None` where they are no playlist,
/// `Some(None)` for a master playlist, `Some(Some(p))` for the media playlist `p`.
pub uninterp spec fn m3u8_parsed(raw: Seq<u8>) -> Option<
    Option<(u64, Seq<(Seq<char>, Option<m3u8_rs::Key>)>)>,
>;

/// Relies on m3u8_rs::parse_playlist_res to parse a playlist; keeps, of a media
/// playlist, the media sequence number and each segment's URI and key.
#[verifier::external_body]
fn parse_m3u8(raw: &[u8]) -> (r: Result<MediaPlaylist, HlsError>)
    ensures
        match r {
            Ok(p) => m3u8_parsed(raw@) == Some(Some(p@)),
            Err(HlsError::MasterPlaylist) => m3u8_parsed(raw@) == Some(
                None::<(u64, Seq<(Seq<char>, Option<m3u8_rs::Key>)>)>,
            ),
            Err(e) => e == HlsError::MalformedPlaylist && m3u8_parsed(raw@) is None,
        },
{
    match m3u8_rs::parse_playlist_res(raw) {
        Ok(m3u8_rs::Playlist::MediaPlaylist(pl)) => Ok(MediaPlaylist {
            media_sequence: pl.media_sequence,
            segments: pl.segments.into_iter().map(|s| MediaSegment { uri: s.uri, key: s.key }).collect(),
        }),
        Ok(m3u8_rs::Playlist::MasterPlaylist(_)) => Err(HlsError::MasterPlaylist),
        Err(_) => Err(HlsError::MalformedPlaylist),
    }
}

/// The result of parsing `raw` as a playlist, as `MediaPlaylist::parse` reports it.
pub open spec fn playlist_parse_result(raw: Seq<u8>) -> Result<
    (u64, Seq<(Seq<char>, Option<m3u8_rs::Key>)>),
    HlsError,
> {
    match m3u8_parsed(raw) {
        None => Err(HlsError::MalformedPlaylist),
        Some(None) => Err(HlsError::MasterPlaylist),
        Some(Some(p)) => Ok(p),
    }
}

impl MediaPlaylist {
    /// Parses a media playlist; a master playlist is refused.
    pub fn parse(raw: &[u8]) -> (r: Result<MediaPlaylist, HlsError>)
        ensures
            match r {
                Ok(p) => playlist_parse_result(raw@) == Ok::<_, HlsError>(p@),
                Err(e) => playlist_parse_result(raw@) == Err::<
                    (u64, Seq<(Seq<char>, Option<m3u8_rs::Key>)>),
                    _,
                >(e),
            },
    {
        parse_m3u8(raw)
    }

    pub fn len_segments(&self) -> (r: usize)
        ensures
            r == self.segments@.len(),
    {
        self.segments.len()
    }

    /// The key that is active for segment `index`, given the key `key` that was
    /// active before it: the segment's own key replaces it when none was active or
    /// when both share a keyformat namespace; otherwise `key` stays active.
    pub fn refresh_key<'a>(&'a self, index: usize, key: Option<&'a m3u8_rs::Key>) -> (r: Option<
        &'a m3u8_rs::Key,
    >)
        requires
            index < self.segments@.len(),
        ensures
            key_of_ref(r) == next_active_key(self.segments@[index as int].key, key_of_ref(key)),
    {
        let seg = &self.segments[index];
        match &seg.key {
            Some(newkey) => {
                match key {
                    None => Some(newkey),
                    Some(k) => {
                        if str_eq(keyformat(k), keyformat(newkey)) {
                            Some(newkey)
                        } else {
                            key
                        }
                    },
                }
            },
            None => key,
        }
    }

    /// Decodes the fetched data of segment `index` under the active key `key`.
    /// Data under no key is returned unchanged; otherwise it is decrypted with
    /// `key_material`, the bytes fetched from the key's URI.
    pub fn decode_segment(
        &self,
        index: usize,
        key: Option<&m3u8_rs::Key>,
        key_material: &[u8],
        data: Vec<u8>,
    ) -> (r: Result<Vec<u8>, HlsError>)
        ensures
            match key {
                None => r matches Ok(p) && p@ == data@,
                Some(k) => match r {
                    Ok(p) => decrypt_result(
                        *k,
                        (self.media_sequence + index) as u128,
                        key_material@,
                        data@,
                    ) == Ok::<Seq<u8>, HlsError>(p@),
                    Err(e) => decrypt_result(
                        *k,
                        (self.media_sequence + index) as u128,
                        key_material@,
                        data@,
                    ) == Err::<Seq<u8>, HlsError>(e),
                },
            },
    {
        match key {
            None => Ok(data),
            Some(k) => decrypt_segment(k, self.sequence_number(index), key_material, data.as_slice()),
        }
    }

    /// The active key of every segment, as calling `refresh_key` on each index
    /// in increasing order gives it; with it segments may be fetched in any order.
    pub fn key_table(&self) -> (r: Vec<Option<&m3u8_rs::Key>>)
        ensures
            r@.len() == self.segments@.len(),
            forall|i: int|
                0 <= i < r@.len() ==> key_of_ref(#[trigger] r@[i]) == active_key_at(
                    declared_keys(self.segments@),
                    i,
                ),
    {
        let mut out: Vec<Option<&m3u8_rs::Key>> = Vec::new();
        let mut key: Option<&m3u8_rs::Key> = None;
        let mut i: usize = 0;
        while i < self.segments.len()
            invariant
                i <= self.segments@.len(),
                out@.len() == i,
                key_of_ref(key) == active_key_at(declared_keys(self.segments@), i - 1),
                forall|j: int|
                    0 <= j < i ==> key_of_ref(#[trigger] out@[j]) == active_key_at(
                        declared_keys(self.segments@),
                        j,
                    ),
            decreases self.segments@.len() - i,
        {
            key = self.refresh_key(i, key);
            assert(declared_keys(self.segments@)[i as int] == self.segments@[i as int].key);
            out.push(key);
            i += 1;
        }
        out
    }

    /// The absolute media sequence number of segment `index`.
    pub fn sequence_number(&self, index: usize) -> (r: u128)
        ensures
            r == self.media_sequence + index,
    {
        self.media_sequence as u128 + index as u128
    }
}

} // verus!
