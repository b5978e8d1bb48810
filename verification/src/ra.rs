//! Router Advertisements: picking them out of IPv6 packets, finding their
//! Prefix Information option and decoding it.

use crate::host::{decimal, push_char, push_decimal};
use crate::ipv6::{address_bit, lemma_masked_bits, masked, prefix_mask, word_bit, word_mask};
use vstd::string::StringExecFns;
use vstd::prelude::*;
use pnet::packet::icmpv6::ndp::RouterAdvertPacket;
use pnet::packet::icmpv6::Icmpv6Packet;
use pnet::packet::ipv6::Ipv6Packet;
use pnet::packet::Packet;

verus! {

/// The contents of a Prefix Information option of a Router Advertisement.
#[derive(Clone, Copy, Debug)]
pub struct PrefixInformation {
    pub prefix_length: u8,
    pub on_link_flag: bool,
    pub autonomous_address_configuration_flag: bool,
    pub valid_lifetime: u32,
    pub preferred_lifetime: u32,
    /// The advertised prefix, cut to `prefix_length` bits.
    pub prefix: [u16; 8],
}

/// The big-endian 16-bit number in the bytes `hi`, `lo`.
pub open spec fn be_u16(hi: u8, lo: u8) -> u16 {
    (hi as int * 256 + lo as int) as u16
}

/// The big-endian 32-bit number in the four bytes of `data` from `at` on.
pub open spec fn be_u32(data: Seq<u8>, at: int) -> u32 {
    (data[at] as int * 16777216 + data[at + 1] as int * 65536 + data[at + 2] as int * 256
        + data[at + 3] as int) as u32
}

/// The sixteen prefix bytes (from offset 14 of the option's payload) read as
/// eight big-endian words.
pub open spec fn raw_prefix(data: Seq<u8>) -> Seq<u16> {
    Seq::new(8, |i: int| be_u16(data[14 + 2 * i], data[15 + 2 * i]))
}

/// What a Prefix Information payload (the option without its type and length
/// bytes) says, the prefix cut to the advertised length.
pub open spec fn prefix_information_fields(info: PrefixInformation, data: Seq<u8>) -> bool {
    &&& info.prefix_length == data[0]
    &&& info.on_link_flag == (data[1] & 0x80u8 != 0)
    &&& info.autonomous_address_configuration_flag == (data[1] & 0x40u8 != 0)
    &&& info.valid_lifetime == be_u32(data, 2)
    &&& info.preferred_lifetime == be_u32(data, 6)
    &&& info.prefix@ == masked(raw_prefix(data), data[0] as int)
}

fn read_be_u32(data: &[u8], at: usize) -> (v: u32)
    requires
        at + 4 <= data@.len(),
    ensures
        v == be_u32(data@, at as int),
{
    let a = data[at];
    let b = data[at + 1];
    let c = data[at + 2];
    let d = data[at + 3];
    assert(((a as u32) << 24u32) | ((b as u32) << 16u32) | ((c as u32) << 8u32) | (d as u32) == (a
        as int * 16777216 + b as int * 65536 + c as int * 256 + d as int) as u32) by (bit_vector);
    ((a as u32) << 24u32) | ((b as u32) << 16u32) | ((c as u32) << 8u32) | (d as u32)
}

fn read_be_u16(hi: u8, lo: u8) -> (v: u16)
    ensures
        v == be_u16(hi, lo),
{
    assert(((hi as u16) << 8u16) | (lo as u16) == (hi as int * 256 + lo as int) as u16)
        by (bit_vector);
    ((hi as u16) << 8u16) | (lo as u16)
}

/// Bit `j` of a byte, counted from the least significant bit.
pub open spec fn byte_bit(b: u8, j: int) -> bool {
    (b >> (j as u8)) & 1u8 == 1u8
}

/// The bits of a big-endian 16-bit number are those of its high byte, then
/// those of its low byte.
proof fn lemma_be_u16_bits(hi: u8, lo: u8, j: u16)
    requires
        j < 16,
    ensures
        word_bit(be_u16(hi, lo), j) == if j >= 8 {
            byte_bit(hi, j - 8)
        } else {
            byte_bit(lo, j as int)
        },
{
    let w = be_u16(hi, lo);
    assert(w == ((hi as u16) << 8u16) | (lo as u16)) by (bit_vector)
        requires
            w == (hi as int * 256 + lo as int) as u16,
    ;
    if j >= 8 {
        let t = (j - 8) as u8;
        assert((((((hi as u16) << 8u16) | (lo as u16)) >> j) & 1u16 == 1u16) == ((hi >> t) & 1u8
            == 1u8)) by (bit_vector)
            requires
                8 <= j < 16,
                t == j - 8,
        ;
    } else {
        let t = j as u8;
        assert((((((hi as u16) << 8u16) | (lo as u16)) >> j) & 1u16 == 1u16) == ((lo >> t) & 1u8
            == 1u8)) by (bit_vector)
            requires
                j < 8,
                t == j,
        ;
    }
}

/// The decoded prefix holds, bit for bit, the first `data[0]` bits of the
/// sixteen prefix bytes of the option (most significant bit of each byte
/// first), and nothing after them; the decoded length is `data[0]` itself.
pub proof fn lemma_decoded_prefix_bits(info: PrefixInformation, data: Seq<u8>)
    requires
        data.len() >= 30,
        prefix_information_fields(info, data),
    ensures
        info.prefix_length == data[0],
        forall|k: int|
            0 <= k < 128 ==> #[trigger] address_bit(info.prefix@, k) == (k < data[0] && byte_bit(
                data[14 + k / 8],
                7 - k % 8,
            )),
{
    lemma_masked_bits(raw_prefix(data), data[0] as int);
    assert forall|k: int| 0 <= k < 128 implies #[trigger] address_bit(info.prefix@, k) == (k
        < data[0] && byte_bit(data[14 + k / 8], 7 - k % 8)) by {
        let i = k / 16;
        let j = (15 - k % 16) as u16;
        assert(address_bit(masked(raw_prefix(data), data[0] as int), k) == (k < data[0]
            && address_bit(raw_prefix(data), k)));
        lemma_be_u16_bits(data[14 + 2 * i], data[15 + 2 * i], j);
        assert(raw_prefix(data)[i] == be_u16(data[14 + 2 * i], data[15 + 2 * i]));
        if k % 16 < 8 {
            assert(k / 8 == 2 * i);
            assert(k % 8 == k % 16);
        } else {
            assert(k / 8 == 2 * i + 1);
            assert(k % 8 == k % 16 - 8);
        }
    }
}

/// Decodes the payload of a Prefix Information option and clears the prefix
/// bits past the advertised length.
pub fn parse_prefix_information(data: &[u8]) -> (info: PrefixInformation)
    requires
        data@.len() >= 30,
    ensures
        prefix_information_fields(info, data@),
{
    let prefix_length = data[0];
    let flags = data[1];
    let valid_lifetime = read_be_u32(data, 2);
    let preferred_lifetime = read_be_u32(data, 6);

    let mut prefix = [0u16; 8];
    let mut i: usize = 0;
    while i < 8
        invariant
            i <= 8,
            data@.len() >= 30,
            forall|j: int| 0 <= j < i ==> #[trigger] prefix@[j] == raw_prefix(data@)[j],
        decreases 8 - i,
    {
        prefix[i] = read_be_u16(data[14 + 2 * i], data[15 + 2 * i]);
        i = i + 1;
    }

    let mask = prefix_mask(prefix_length);
    let mut i: usize = 0;
    while i < 8
        invariant
            i <= 8,
            forall|j: int| 0 <= j < 8 ==> #[trigger] mask@[j] == word_mask(prefix_length as int, j),
            forall|j: int|
                0 <= j < i ==> #[trigger] prefix@[j] == masked(
                    raw_prefix(data@),
                    prefix_length as int,
                )[j],
            forall|j: int| i <= j < 8 ==> #[trigger] prefix@[j] == raw_prefix(data@)[j],
        decreases 8 - i,
    {
        prefix[i] = prefix[i] & mask[i];
        i = i + 1;
    }
    assert(prefix@ =~= masked(raw_prefix(data@), prefix_length as int));

    PrefixInformation {
        prefix_length,
        on_link_flag: flags & 0x80 != 0,
        autonomous_address_configuration_flag: flags & 0x40 != 0,
        valid_lifetime,
        preferred_lifetime,
        prefix,
    }
}


/// The option type of a Prefix Information option.
pub const PREFIX_INFORMATION: u8 = 3;

/// The ICMPv6 message type of a Router Advertisement.
pub const ROUTER_ADVERT: u8 = 134;

/// The IPv6 next-header number of ICMPv6.
pub const NEXT_HEADER_ICMPV6: u8 = 58;

/// The number of bytes that a Neighbor Discovery option with the given
/// length byte occupies (the length counts units of 8 bytes; an option that
/// claims length 0 is stepped over as its two header bytes).
pub open spec fn ndp_option_size(length: u8) -> int {
    if length > 0 {
        length as int * 8
    } else {
        2
    }
}

/// Where the first option in `options` ends: its size, cut at the end of the
/// data.
pub open spec fn ndp_option_end(options: Seq<u8>) -> int {
    if ndp_option_size(options[1]) <= options.len() {
        ndp_option_size(options[1])
    } else {
        options.len() as int
    }
}

/// The Neighbor Discovery options in `options`, in order, each as its type
/// and its payload (its bytes after type and length, cut at the end of the
/// data). A last single byte is no option.
pub open spec fn ndp_option_list(options: Seq<u8>) -> Seq<(u8, Seq<u8>)>
    decreases options.len(),
{
    if options.len() < 2 {
        Seq::empty()
    } else {
        let end = ndp_option_end(options);
        seq![(options[0], options.subrange(2, end))] + ndp_option_list(options.skip(end))
    }
}

/// Every option in `options` has a length byte below 32, so that its size in
/// bytes fits the 8-bit arithmetic with which pnet steps over it.
pub open spec fn ndp_options_fit(options: Seq<u8>) -> bool
    decreases options.len(),
{
    if options.len() < 2 {
        true
    } else {
        options[1] < 32 && ndp_options_fit(options.skip(ndp_option_end(options)))
    }
}

/// The payload of the first Prefix Information option in `list`.
pub open spec fn first_prefix_option(list: Seq<(u8, Seq<u8>)>) -> Option<Seq<u8>>
    decreases list.len(),
{
    if list.len() == 0 {
        None
    } else if list[0].0 == 3 {
        Some(list[0].1)
    } else {
        first_prefix_option(list.drop_first())
    }
}

/// The options as plain values: type and payload.
pub open spec fn option_values(options: Seq<(u8, Vec<u8>)>) -> Seq<(u8, Seq<u8>)> {
    options.map_values(|o: (u8, Vec<u8>)| (o.0, o.1@))
}

/// `RouterAdvertPacket::new` of pnet, then its `get_options_iter`, each option
/// taken as its type and its payload. pnet sees no Router Advertisement in
/// fewer than 16 bytes; after them it walks the options as `ndp_option_list`
/// states. It computes an option's size as its length byte times 8 in a `u8`,
/// which overflows for a length byte of 32 or more: such options are left out.
#[verifier::external_body]
fn router_advert_options(message: &[u8]) -> (r: Option<Vec<(u8, Vec<u8>)>>)
    requires
        message@.len() >= 16 ==> ndp_options_fit(message@.skip(16)),
    ensures
        r is None <==> message@.len() < 16,
        r matches Some(v) ==> option_values(v@) == ndp_option_list(message@.skip(16)),
{
    match RouterAdvertPacket::new(message) {
        Some(ra) => Some(
            ra.get_options_iter().map(|o| (o.get_option_type().0, o.payload().to_vec())).collect(),
        ),
        None => None,
    }
}

/// Whether every option of the Router Advertisement `message` (at least 16
/// bytes) has a length byte below 32.
fn options_fit(message: &[u8]) -> (r: bool)
    requires
        message@.len() >= 16,
    ensures
        r == ndp_options_fit(message@.skip(16)),
{
    let mut pos: usize = 16;
    while message.len() - pos >= 2
        invariant
            16 <= pos <= message@.len(),
            ndp_options_fit(message@.skip(16)) == ndp_options_fit(message@.skip(pos as int)),
        decreases message@.len() - pos,
    {
        let ghost rest = message@.skip(pos as int);
        let length = message[pos + 1];
        if length >= 32 {
            return false;
        }
        let size: usize = if length > 0 {
            length as usize * 8
        } else {
            2
        };
        let end = if size <= message.len() - pos {
            pos + size
        } else {
            message.len()
        };
        assert(rest.skip(end - pos) =~= message@.skip(end as int));
        pos = end;
    }
    true
}

/// The outcome of looking for the Prefix Information option of a Router
/// Advertisement.
pub enum PrefixOptionScan {
    /// The message is too short to be a Router Advertisement.
    NotRouterAdvert,
    /// The message carries no Prefix Information option.
    NoPrefixOption,
    /// One of its options has a length byte of 32 or more.
    LengthOverflow,
    /// The payload of the first Prefix Information option.
    Found(Vec<u8>),
}

/// What `scan_prefix_option` must return for the ICMPv6 message `message`.
pub open spec fn prefix_option_scan_result(message: Seq<u8>, r: PrefixOptionScan) -> bool {
    if message.len() < 16 {
        r is NotRouterAdvert
    } else if !ndp_options_fit(message.skip(16)) {
        r is LengthOverflow
    } else {
        match first_prefix_option(ndp_option_list(message.skip(16))) {
            None => r is NoPrefixOption,
            Some(payload) => r matches PrefixOptionScan::Found(p) && p@ == payload,
        }
    }
}

/// Looks for the first Prefix Information option of the Router Advertisement
/// `message` (an ICMPv6 message: a 16-byte header, then options).
pub fn scan_prefix_option(message: &[u8]) -> (r: PrefixOptionScan)
    ensures
        prefix_option_scan_result(message@, r),
{
    if message.len() >= 16 && !options_fit(message) {
        return PrefixOptionScan::LengthOverflow;
    }
    let mut options = match router_advert_options(message) {
        None => return PrefixOptionScan::NotRouterAdvert,
        Some(options) => options,
    };
    let ghost list = option_values(options@);
    assert(list.skip(0) =~= list);
    let mut i: usize = 0;
    while i < options.len()
        invariant
            i <= options@.len(),
            list == option_values(options@),
            message@.len() >= 16,
            ndp_options_fit(message@.skip(16)),
            list == ndp_option_list(message@.skip(16)),
            first_prefix_option(list) == first_prefix_option(list.skip(i as int)),
        decreases options@.len() - i,
    {
        assert(list.skip(i as int).drop_first() =~= list.skip(i + 1));
        assert(list.skip(i as int)[0] == (options@[i as int].0, options@[i as int].1@));
        if options[i].0 == PREFIX_INFORMATION {
            assert(first_prefix_option(list.skip(i as int)) == Some(options@[i as int].1@));
            let (_, payload) = options.swap_remove(i);
            return PrefixOptionScan::Found(payload);
        }
        i = i + 1;
    }
    assert(list.skip(i as int).len() == 0);
    PrefixOptionScan::NoPrefixOption
}

/// The payload of the IPv6 packet `packet` (at least a 40-byte header):
/// `payload_length` bytes after the header, cut at the end of the data.
pub open spec fn ipv6_payload(packet: Seq<u8>) -> Seq<u8> {
    let payload_end = 40 + be_u16(packet[4], packet[5]);
    if payload_end <= packet.len() {
        packet.subrange(40, payload_end)
    } else {
        packet.subrange(40, packet.len() as int)
    }
}

/// `Ipv6Packet::new` of pnet, then `get_next_header` and `payload`: no packet
/// in fewer than 40 bytes; otherwise the next-header byte (offset 6) and the
/// payload as `ipv6_payload` states.
#[verifier::external_body]
fn ipv6_next_header_and_payload(packet: &[u8]) -> (r: Option<(u8, Vec<u8>)>)
    ensures
        r is None <==> packet@.len() < 40,
        r matches Some(p) ==> p.0 == packet@[6] && p.1@ == ipv6_payload(packet@),
{
    match Ipv6Packet::new(packet) {
        Some(p) => Some((p.get_next_header().0, p.payload().to_vec())),
        None => None,
    }
}

/// `Icmpv6Packet::new` of pnet, then `get_icmpv6_type`: no message in fewer
/// than 4 bytes (type, code, checksum); otherwise its first byte.
#[verifier::external_body]
fn icmpv6_type(message: &[u8]) -> (r: Option<u8>)
    ensures
        r is None <==> message@.len() < 4,
        r matches Some(t) ==> t == message@[0],
{
    match Icmpv6Packet::new(message) {
        Some(p) => Some(p.get_icmpv6_type().0),
        None => None,
    }
}

/// The ICMPv6 message that the IPv6 packet `packet` carries when it carries a
/// Router Advertisement: the packet is at least a 40-byte header long, its
/// next header is ICMPv6, its payload holds at least an ICMPv6 header and
/// starts with the Router Advertisement type.
pub open spec fn router_advert_message(packet: Seq<u8>) -> Option<Seq<u8>> {
    if packet.len() < 40 || packet[6] != 58 {
        None
    } else {
        let message = ipv6_payload(packet);
        if message.len() >= 4 && message[0] == 134 {
            Some(message)
        } else {
            None
        }
    }
}

/// Only Router Advertisements are picked out: a message comes out exactly when
/// the packet has a full 40-byte header, next header 58 (ICMPv6) and a payload
/// of at least 4 bytes whose first byte, the ICMPv6 type, is 134; any other
/// type gives nothing. The message is the payload: the `payload_length`
/// bytes (bytes 4 and 5, big-endian) after the header, cut at the end of the
/// packet.
pub proof fn lemma_only_router_adverts(packet: Seq<u8>)
    ensures
        router_advert_message(packet) is Some <==> (packet.len() >= 44 && packet[6] == 58
            && packet[40] == 134 && packet[4] as int * 256 + packet[5] as int >= 4),
        router_advert_message(packet) matches Some(m) ==> {
            &&& m[0] == 134
            &&& m.len() == if packet[4] as int * 256 + packet[5] as int <= packet.len() - 40 {
                packet[4] as int * 256 + packet[5] as int
            } else {
                packet.len() - 40
            }
            &&& forall|i: int| 0 <= i < m.len() ==> #[trigger] m[i] == packet[40 + i]
        },
{
    if packet.len() >= 40 {
        let n = packet[4] as int * 256 + packet[5] as int;
        assert(be_u16(packet[4], packet[5]) as int == n) by {
            let hi = packet[4];
            let lo = packet[5];
            assert((hi as int * 256 + lo as int) as u16 == hi as int * 256 + lo as int)
                by (bit_vector);
        }
    }
}

/// Picks the Router Advertisements out of the captured IPv6 packets.
pub fn router_advert_in_ipv6(packet: &[u8]) -> (r: Option<Vec<u8>>)
    ensures
        match router_advert_message(packet@) {
            None => r is None,
            Some(m) => r matches Some(v) && v@ == m,
        },
{
    let (next_header, payload) = match ipv6_next_header_and_payload(packet) {
        None => return None,
        Some(parts) => parts,
    };
    if next_header != NEXT_HEADER_ICMPV6 {
        return None;
    }
    match icmpv6_type(payload.as_slice()) {
        Some(t) => if t == ROUTER_ADVERT {
            Some(payload)
        } else {
            None
        },
        None => None,
    }
}


/// `true` or `false`.
pub open spec fn bool_text(b: bool) -> Seq<char> {
    if b {
        "true"@
    } else {
        "false"@
    }
}

/// The lower-case hexadecimal digit of `d` (below 16).
pub open spec fn hex_digit(d: int) -> char {
    if d < 10 {
        (48 + d) as char
    } else {
        (87 + d) as char
    }
}

/// The word `w` as four hexadecimal digits.
pub open spec fn hex4(w: u16) -> Seq<char> {
    seq![
        hex_digit(w as int / 4096),
        hex_digit((w as int / 256) % 16),
        hex_digit((w as int / 16) % 16),
        hex_digit(w as int % 16),
    ]
}

/// The first `n` words of `words`, each as four hexadecimal digits, joined by
/// colons.
pub open spec fn hex_words(words: Seq<u16>, n: int) -> Seq<char>
    decreases n,
{
    if n <= 0 {
        Seq::empty()
    } else if n == 1 {
        hex4(words[0])
    } else {
        hex_words(words, n - 1) + ":"@ + hex4(words[n - 1])
    }
}

/// The lines that describe a Prefix Information option.
pub open spec fn summary_lines(info: PrefixInformation) -> Seq<Seq<char>> {
    seq![
        "Prefix Length: "@ + decimal(info.prefix_length as nat),
        "On Link Flag: "@ + bool_text(info.on_link_flag),
        "Autonomous Address Configuration Flag: "@ + bool_text(
            info.autonomous_address_configuration_flag,
        ),
        "Valid Lifetime: "@ + decimal(info.valid_lifetime as nat),
        "Preferred Lifetime: "@ + decimal(info.preferred_lifetime as nat),
        "Prefix: "@ + hex_words(info.prefix@, 8),
    ]
}

fn push_hex_digit(s: &mut String, d: u16)
    requires
        d < 16,
    ensures
        final(s)@ == old(s)@.push(hex_digit(d as int)),
{
    let c = if d < 10 {
        (48u8 + d as u8) as char
    } else {
        (87u8 + d as u8) as char
    };
    push_char(s, c);
}

fn push_hex4(s: &mut String, w: u16)
    ensures
        final(s)@ == old(s)@ + hex4(w),
{
    let ghost start = s@;
    push_hex_digit(s, w / 4096);
    push_hex_digit(s, (w / 256) % 16);
    push_hex_digit(s, (w / 16) % 16);
    push_hex_digit(s, w % 16);
    assert(s@ =~= start + hex4(w));
}

fn bool_string(b: bool) -> (r: String)
    ensures
        r@ == bool_text(b),
{
    if b {
        "true".to_string()
    } else {
        "false".to_string()
    }
}

fn labelled(label: &str, value: String) -> (r: String)
    ensures
        r@ == label@ + value@,
{
    let mut s = label.to_string();
    s.append(value.as_str());
    s
}

fn decimal_string(n: u64) -> (r: String)
    ensures
        r@ == decimal(n as nat),
{
    let mut s = String::new();
    push_decimal(&mut s, n);
    assert(s@ =~= decimal(n as nat));
    s
}

impl PrefixInformation {
    /// The lines that show the option field by field, the prefix as eight
    /// four-digit hexadecimal words.
    pub fn summary(&self) -> (lines: Vec<String>)
        ensures
            lines@.len() == 6,
            forall|i: int| 0 <= i < 6 ==> #[trigger] lines@[i]@ == summary_lines(*self)[i],
    {
        let mut prefix = "Prefix: ".to_string();
        let mut i: usize = 0;
        while i < 8
            invariant
                i <= 8,
                prefix@ == "Prefix: "@ + hex_words(self.prefix@, i as int),
            decreases 8 - i,
        {
            if i > 0 {
                prefix.append(":");
            }
            push_hex4(&mut prefix, self.prefix[i]);
            assert(prefix@ =~= "Prefix: "@ + hex_words(self.prefix@, i + 1));
            i = i + 1;
        }
        let mut lines: Vec<String> = Vec::new();
        lines.push(labelled("Prefix Length: ", decimal_string(self.prefix_length as u64)));
        lines.push(labelled("On Link Flag: ", bool_string(self.on_link_flag)));
        lines.push(
            labelled(
                "Autonomous Address Configuration Flag: ",
                bool_string(self.autonomous_address_configuration_flag),
            ),
        );
        lines.push(labelled("Valid Lifetime: ", decimal_string(self.valid_lifetime as u64)));
        lines.push(labelled("Preferred Lifetime: ", decimal_string(self.preferred_lifetime as u64)));
        lines.push(prefix);
        lines
    }
}

} // verus!
