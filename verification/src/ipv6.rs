//! IPv6 prefixes: masks, prefix tests, first and random addresses, and the
//! choice of random subnets inside a delegated prefix.

use rand::Rng;
use vstd::prelude::*;

verus! {

/// The mask that the first `prefix_length` bits of an address cover in its
/// 16-bit word number `i` (word 0 holds the most significant bits).
pub open spec fn word_mask(prefix_length: int, i: int) -> u16 {
    if prefix_length >= (i + 1) * 16 {
        0xffff
    } else if prefix_length > i * 16 {
        0xffffu16 << (((i + 1) * 16 - prefix_length) as u16)
    } else {
        0
    }
}

/// The address `addr` with every bit past the first `prefix_length` cleared.
pub open spec fn masked(addr: Seq<u16>, prefix_length: int) -> Seq<u16> {
    Seq::new(8, |i: int| addr[i] & word_mask(prefix_length, i))
}

/// `addr` and `prefix` agree on every word under the mask of `prefix_length`.
pub open spec fn starts_with_prefix(addr: Seq<u16>, prefix: Seq<u16>, prefix_length: int) -> bool {
    forall|i: int| 0 <= i < 8 ==> #[trigger] (addr[i] & word_mask(prefix_length, i)) == prefix[i]
        & word_mask(prefix_length, i)
}

/// Bit `j` of a word, counted from the least significant bit.
pub open spec fn word_bit(x: u16, j: u16) -> bool {
    (x >> j) & 1u16 == 1u16
}

/// Bit number `k` of an address, counted from the most significant bit.
pub open spec fn address_bit(addr: Seq<u16>, k: int) -> bool {
    word_bit(addr[k / 16], (15 - k % 16) as u16)
}

/// Computes the mask word `i` of a prefix of `prefix_length` bits.
fn mask_word(prefix_length: u8, i: u8) -> (m: u16)
    requires
        i < 8,
    ensures
        m == word_mask(prefix_length as int, i as int),
{
    if prefix_length >= (i + 1) * 16 {
        0xffff
    } else if prefix_length > i * 16 {
        0xffffu16 << ((i + 1) * 16 - prefix_length)
    } else {
        0
    }
}

/// The eight mask words of a prefix of `prefix_length` bits.
pub fn prefix_mask(prefix_length: u8) -> (mask: [u16; 8])
    ensures
        forall|i: int| 0 <= i < 8 ==> #[trigger] mask@[i] == word_mask(prefix_length as int, i),
{
    let mut mask = [0u16; 8];
    let mut i: u8 = 0;
    while i < 8
        invariant
            i <= 8,
            forall|j: int| 0 <= j < i ==> #[trigger] mask@[j] == word_mask(prefix_length as int, j),
        decreases 8 - i,
    {
        mask[i as usize] = mask_word(prefix_length, i);
        i = i + 1;
    }
    mask
}

/// Whether the first `prefix_length` bits of `addr` equal those of `prefix`.
pub fn ipv6_start_with_prefix(addr: &[u16; 8], prefix: &[u16; 8], prefix_length: u8) -> (r: bool)
    ensures
        r == starts_with_prefix(addr@, prefix@, prefix_length as int),
{
    let mask = prefix_mask(prefix_length);
    let mut i: usize = 0;
    while i < 8
        invariant
            i <= 8,
            forall|j: int| 0 <= j < 8 ==> #[trigger] mask@[j] == word_mask(prefix_length as int, j),
            forall|j: int|
                0 <= j < i ==> #[trigger] (addr@[j] & word_mask(prefix_length as int, j))
                    == prefix@[j] & word_mask(prefix_length as int, j),
        decreases 8 - i,
    {
        if addr[i] & mask[i] != prefix[i] & mask[i] {
            return false;
        }
        i = i + 1;
    }
    true
}


/// Two words whose bits agree from bit `j` up agree once shifted right by `j`.
proof fn lemma_shifted_words_agree(x: u16, y: u16, j: u16)
    requires
        j <= 15,
        forall|k: u16| j <= k < 16 ==> #[trigger] word_bit(x, k) == word_bit(y, k),
    ensures
        x >> j == y >> j,
    decreases 15 - j,
{
    assert(word_bit(x, j) == word_bit(y, j));
    if j == 15 {
        assert(x >> 15u16 == y >> 15u16) by (bit_vector)
            requires
                ((x >> 15u16) & 1u16 == 1u16) == ((y >> 15u16) & 1u16 == 1u16),
        ;
    } else {
        let k = (j + 1) as u16;
        lemma_shifted_words_agree(x, y, k);
        assert(x >> j == y >> j) by (bit_vector)
            requires
                j < 15,
                k == j + 1,
                x >> k == y >> k,
                ((x >> j) & 1u16 == 1u16) == ((y >> j) & 1u16 == 1u16),
        ;
    }
}

/// Masking with the `16 - s` high bits keeps exactly the bits at `s` and above.
proof fn lemma_high_mask_bits(x: u16, y: u16, s: u16)
    requires
        s <= 15,
    ensures
        (x & (0xffffu16 << s)) == (y & (0xffffu16 << s)) <==> (forall|j: u16|
            s <= j < 16 ==> #[trigger] word_bit(x, j) == word_bit(y, j)),
{
    if (x & (0xffffu16 << s)) == (y & (0xffffu16 << s)) {
        assert forall|j: u16| s <= j < 16 implies #[trigger] word_bit(x, j) == word_bit(y, j) by {
            assert(((x >> j) & 1u16 == 1u16) == ((y >> j) & 1u16 == 1u16)) by (bit_vector)
                requires
                    s <= 15,
                    s <= j < 16,
                    (x & (0xffffu16 << s)) == (y & (0xffffu16 << s)),
            ;
        }
    }
    if forall|j: u16| s <= j < 16 ==> #[trigger] word_bit(x, j) == word_bit(y, j) {
        lemma_shifted_words_agree(x, y, s);
        assert(x & (0xffffu16 << s) == (x >> s) << s && y & (0xffffu16 << s) == (y >> s) << s)
            by (bit_vector)
            requires
                s <= 15,
        ;
    }
}

/// The lowest bit (counted from the least significant end) of word `i` that a
/// prefix of `prefix_length` bits covers; 16 when it covers none of it.
spec fn first_covered_bit(prefix_length: int, i: int) -> int {
    if prefix_length >= (i + 1) * 16 {
        0
    } else if prefix_length > i * 16 {
        (i + 1) * 16 - prefix_length
    } else {
        16
    }
}

/// Under the mask of word `i`, two words agree exactly when they agree on
/// every bit that the prefix covers.
proof fn lemma_word_mask_bits(x: u16, y: u16, prefix_length: int, i: int)
    requires
        0 <= i < 8,
    ensures
        (x & word_mask(prefix_length, i)) == (y & word_mask(prefix_length, i)) <==> (forall|j: u16|
            first_covered_bit(prefix_length, i) <= j < 16 ==> #[trigger] word_bit(x, j)
                == word_bit(y, j)),
{
    let s = first_covered_bit(prefix_length, i);
    if prefix_length >= (i + 1) * 16 {
        assert(0xffffu16 << 0u16 == 0xffffu16) by (bit_vector);
        lemma_high_mask_bits(x, y, 0);
    } else if prefix_length > i * 16 {
        lemma_high_mask_bits(x, y, s as u16);
    } else {
        assert(x & 0u16 == 0u16 && y & 0u16 == 0u16) by (bit_vector);
    }
}

/// An address starts with a prefix exactly when its first `prefix_length`
/// bits (all 128 when the length is longer) equal those of the prefix.
pub proof fn lemma_starts_with_prefix_bits(addr: Seq<u16>, prefix: Seq<u16>, prefix_length: int)
    requires
        addr.len() == 8,
        prefix.len() == 8,
    ensures
        starts_with_prefix(addr, prefix, prefix_length) <==> (forall|k: int|
            0 <= k < prefix_length && k < 128 ==> #[trigger] address_bit(addr, k) == address_bit(
                prefix,
                k,
            )),
{
    if starts_with_prefix(addr, prefix, prefix_length) {
        assert forall|k: int| 0 <= k < prefix_length && k < 128 implies #[trigger] address_bit(
            addr,
            k,
        ) == address_bit(prefix, k) by {
            let i = k / 16;
            let j = (15 - k % 16) as u16;
            assert(addr[i] & word_mask(prefix_length, i) == prefix[i] & word_mask(prefix_length, i));
            lemma_word_mask_bits(addr[i], prefix[i], prefix_length, i);
            assert(word_bit(addr[i], j) == word_bit(prefix[i], j));
        }
    }
    if forall|k: int|
        0 <= k < prefix_length && k < 128 ==> #[trigger] address_bit(addr, k) == address_bit(
            prefix,
            k,
        ) {
        assert forall|i: int| 0 <= i < 8 implies #[trigger] (addr[i] & word_mask(prefix_length, i))
            == prefix[i] & word_mask(prefix_length, i) by {
            lemma_word_mask_bits(addr[i], prefix[i], prefix_length, i);
            assert forall|j: u16|
                first_covered_bit(prefix_length, i) <= j < 16 implies #[trigger] word_bit(
                addr[i],
                j,
            ) == word_bit(prefix[i], j) by {
                let k = 16 * i + 15 - j;
                assert(k / 16 == i);
                assert(k % 16 == 15 - j);
                assert(address_bit(addr, k) == address_bit(prefix, k));
            }
        }
    }
}


/// The first host address of a prefix: the masked prefix with its last word
/// increased by one.
pub open spec fn first_address(prefix: Seq<u16>, prefix_length: int) -> Seq<u16> {
    Seq::new(
        8,
        |i: int|
            if i == 7 {
                ((prefix[7] & word_mask(prefix_length, 7)) + 1) as u16
            } else {
                prefix[i] & word_mask(prefix_length, i)
            },
    )
}

/// Bit `j` of word `i` under the mask of a prefix is the word's bit where the
/// prefix covers it, and clear elsewhere.
proof fn lemma_masked_word_bit(x: u16, prefix_length: int, i: int, j: u16)
    requires
        0 <= i < 8,
        j < 16,
    ensures
        word_bit(x & word_mask(prefix_length, i), j) == (j >= first_covered_bit(prefix_length, i)
            && word_bit(x, j)),
{
    if prefix_length >= (i + 1) * 16 {
        assert(x & 0xffffu16 == x) by (bit_vector);
    } else if prefix_length > i * 16 {
        let s = ((i + 1) * 16 - prefix_length) as u16;
        assert(word_mask(prefix_length, i) == 0xffffu16 << s);
        assert((((x & (0xffffu16 << s)) >> j) & 1u16 == 1u16) == (j >= s && (x >> j) & 1u16
            == 1u16)) by (bit_vector)
            requires
                s <= 15,
                j < 16,
        ;
    } else {
        assert(((x & 0u16) >> j) & 1u16 == 0u16) by (bit_vector);
    }
}

/// The mask of a prefix (as `prefix_mask` gives it) has exactly its first
/// `prefix_length` bits set.
pub proof fn lemma_prefix_mask_bits(mask: Seq<u16>, prefix_length: int)
    requires
        mask.len() == 8,
        forall|i: int| 0 <= i < 8 ==> #[trigger] mask[i] == word_mask(prefix_length, i),
    ensures
        forall|k: int| 0 <= k < 128 ==> #[trigger] address_bit(mask, k) == (k < prefix_length),
{
    let ones = Seq::new(8, |i: int| 0xffffu16);
    let m = mask;
    lemma_masked_bits(ones, prefix_length);
    assert forall|i: int| 0 <= i < 8 implies #[trigger] masked(ones, prefix_length)[i] == m[i] by {
        let w = word_mask(prefix_length, i);
        assert(0xffffu16 & w == w) by (bit_vector);
    }
    assert(masked(ones, prefix_length) =~= m);
    assert forall|k: int| 0 <= k < 128 implies #[trigger] address_bit(ones, k) by {
        let j = (15 - k % 16) as u16;
        assert((0xffffu16 >> j) & 1u16 == 1u16) by (bit_vector)
            requires
                j < 16,
        ;
    }
}

/// Bit `k` of an address lies in the part of its word that a prefix of
/// `prefix_length` bits covers exactly when `k < prefix_length`.
proof fn lemma_covered_bit_index(prefix_length: int, k: int)
    requires
        0 <= k < 128,
    ensures
        (15 - k % 16 >= first_covered_bit(prefix_length, k / 16)) == (k < prefix_length),
{
}

/// Masking an address to `prefix_length` bits keeps exactly its first
/// `prefix_length` bits and clears every later one.
pub proof fn lemma_masked_bits(addr: Seq<u16>, prefix_length: int)
    ensures
        forall|k: int|
            0 <= k < 128 ==> #[trigger] address_bit(masked(addr, prefix_length), k) == (k
                < prefix_length && address_bit(addr, k)),
{
    assert forall|k: int| 0 <= k < 128 implies #[trigger] address_bit(
        masked(addr, prefix_length),
        k,
    ) == (k < prefix_length && address_bit(addr, k)) by {
        let i = k / 16;
        let j = (15 - k % 16) as u16;
        lemma_masked_word_bit(addr[i], prefix_length, i, j);
        lemma_covered_bit_index(prefix_length, k);
    }
}

/// The first address of a network of at most 127 bits keeps the network's
/// first `prefix_length` bits, has its very last bit set, and every other
/// bit clear.
pub proof fn lemma_first_address_bits(prefix: Seq<u16>, prefix_length: int)
    requires
        0 <= prefix_length <= 127,
    ensures
        forall|k: int|
            0 <= k < 128 ==> #[trigger] address_bit(first_address(prefix, prefix_length), k) == if k
                < prefix_length {
                address_bit(prefix, k)
            } else {
                k == 127
            },
{
    let a = first_address(prefix, prefix_length);
    let m = masked(prefix, prefix_length);
    lemma_masked_bits(prefix, prefix_length);
    assert forall|k: int| 0 <= k < 128 implies #[trigger] address_bit(a, k) == if k
        < prefix_length {
        address_bit(prefix, k)
    } else {
        k == 127
    } by {
        let i = k / 16;
        let j = (15 - k % 16) as u16;
        if i < 7 {
            assert(a[i] == m[i]);
            assert(address_bit(m, k) == (k < prefix_length && address_bit(prefix, k)));
        } else {
            let x = prefix[7] & word_mask(prefix_length, 7);
            lemma_masked_word_bit(prefix[7], prefix_length, 7, 0);
            lemma_masked_word_bit(prefix[7], prefix_length, 7, j);
            lemma_covered_bit_index(prefix_length, k);
            assert(!word_bit(x, 0));
            assert(((x >> 0u16) & 1u16 != 1u16) ==> ((((x + 1) as u16 >> j) & 1u16 == 1u16) == (j
                == 0 || (x >> j) & 1u16 == 1u16))) by (bit_vector)
                requires
                    j < 16,
            ;
            assert(a[7] == (x + 1) as u16);
        }
    }
}

/// Builds the first address of the network `prefix/prefix_length` (the masked
/// prefix plus one), or refuses a length above 128.
pub fn generate_first_ipv6_with_prefix(prefix: &[u16; 8], prefix_length: u8) -> (r: Result<
    [u16; 8],
    String,
>)
    requires
        prefix_length <= 128 ==> (prefix@[7] & word_mask(prefix_length as int, 7)) < 0xffff,
    ensures
        r is Err <==> prefix_length > 128,
        r matches Err(e) ==> e@ == "Prefix length must be less than 128"@,
        r matches Ok(a) ==> a@ == first_address(prefix@, prefix_length as int),
{
    if prefix_length > 128 {
        return Err("Prefix length must be less than 128".to_string());
    }
    let first_bytes: [u16; 8] = [0u16, 0u16, 0u16, 0u16, 0u16, 0u16, 0u16, 1u16];
    let mask = prefix_mask(prefix_length);
    let mut first_ipv6 = [0u16; 8];
    let mut i: usize = 0;
    while i < 8
        invariant
            i <= 8,
            first_bytes@ == seq![0u16, 0u16, 0u16, 0u16, 0u16, 0u16, 0u16, 1u16],
            prefix_length <= 128,
            (prefix@[7] & word_mask(prefix_length as int, 7)) < 0xffff,
            forall|j: int| 0 <= j < 8 ==> #[trigger] mask@[j] == word_mask(prefix_length as int, j),
            forall|j: int|
                0 <= j < i ==> #[trigger] first_ipv6@[j] == first_address(
                    prefix@,
                    prefix_length as int,
                )[j],
        decreases 8 - i,
    {
        first_ipv6[i] = (prefix[i] & mask[i]) + first_bytes[i];
        i = i + 1;
    }
    assert(first_ipv6@ =~= first_address(prefix@, prefix_length as int));
    Ok(first_ipv6)
}

/// The unique local range fc00::/7.
pub open spec fn unique_local_prefix() -> Seq<u16> {
    seq![0xfc00u16, 0u16, 0u16, 0u16, 0u16, 0u16, 0u16, 0u16]
}

/// The link-local range fe80::/10.
pub open spec fn link_local_prefix() -> Seq<u16> {
    seq![0xfe80u16, 0u16, 0u16, 0u16, 0u16, 0u16, 0u16, 0u16]
}

/// An address lies in the unique local range fc00::/7 exactly when its first
/// seven bits are 1111110.
pub proof fn lemma_unique_local_bits(addr: Seq<u16>)
    requires
        addr.len() == 8,
    ensures
        starts_with_prefix(addr, unique_local_prefix(), 7) <==> (forall|k: int|
            0 <= k < 7 ==> #[trigger] address_bit(addr, k) == (k < 6)),
{
    lemma_starts_with_prefix_bits(addr, unique_local_prefix(), 7);
    assert forall|k: int| 0 <= k < 7 implies #[trigger] address_bit(unique_local_prefix(), k) == (k
        < 6) by {
        let j = (15 - k) as u16;
        assert(((0xfc00u16 >> j) & 1u16 == 1u16) == (j >= 10)) by (bit_vector)
            requires
                9 <= j < 16,
        ;
    }
}

/// An address lies in the link-local range fe80::/10 exactly when its first
/// ten bits are 1111111010.
pub proof fn lemma_link_local_bits(addr: Seq<u16>)
    requires
        addr.len() == 8,
    ensures
        starts_with_prefix(addr, link_local_prefix(), 10) <==> (forall|k: int|
            0 <= k < 10 ==> #[trigger] address_bit(addr, k) == (k < 7 || k == 8)),
{
    lemma_starts_with_prefix_bits(addr, link_local_prefix(), 10);
    assert forall|k: int| 0 <= k < 10 implies #[trigger] address_bit(link_local_prefix(), k) == (k
        < 7 || k == 8) by {
        let j = (15 - k) as u16;
        assert(((0xfe80u16 >> j) & 1u16 == 1u16) == (j >= 9 || j == 7)) by (bit_vector)
            requires
                6 <= j < 16,
        ;
    }
}

/// Whether `addr` lies in the unique local range fc00::/7.
pub fn is_unique_local_address(addr: &[u16; 8]) -> (r: bool)
    ensures
        r == starts_with_prefix(addr@, unique_local_prefix(), 7),
{
    let first_byte = addr[0];
    proof {
        assert(0xffffu16 << 9u16 == 0xfe00u16) by (bit_vector);
        assert(0xfc00u16 & 0xfe00u16 == 0xfc00u16) by (bit_vector);
        assert(word_mask(7, 0) == 0xfe00u16);
        assert(unique_local_prefix()[0] == 0xfc00u16);
        assert forall|i: int| 1 <= i < 8 implies #[trigger] (addr@[i] & word_mask(7, i))
            == unique_local_prefix()[i] & word_mask(7, i) by {
            let x = addr@[i];
            assert(x & 0u16 == 0u16 && 0u16 & 0u16 == 0u16) by (bit_vector);
        }
    }
    (first_byte & 0xfe00) == 0xfc00
}

/// Whether `addr` lies in the link-local range fe80::/10.
pub fn is_link_local_address(addr: &[u16; 8]) -> (r: bool)
    ensures
        r == starts_with_prefix(addr@, link_local_prefix(), 10),
{
    let first_byte = addr[0];
    proof {
        assert(0xffffu16 << 6u16 == 0xffc0u16) by (bit_vector);
        assert(0xfe80u16 & 0xffc0u16 == 0xfe80u16) by (bit_vector);
        assert(word_mask(10, 0) == 0xffc0u16);
        assert(link_local_prefix()[0] == 0xfe80u16);
        assert forall|i: int| 1 <= i < 8 implies #[trigger] (addr@[i] & word_mask(10, i))
            == link_local_prefix()[i] & word_mask(10, i) by {
            let x = addr@[i];
            assert(x & 0u16 == 0u16 && 0u16 & 0u16 == 0u16) by (bit_vector);
        }
    }
    (first_byte & 0xffc0) == 0xfe80
}


/// The subnet length that a requested length stands for: a request above 128
/// means "the delegated length plus (request - 128)".
pub open spec fn effective_subnet_length(main_prefix_length: int, subnet_prefix_length: int) -> int {
    if subnet_prefix_length > 128 {
        subnet_prefix_length - 128 + main_prefix_length
    } else {
        subnet_prefix_length
    }
}

/// The bits of word `i` that a random subnet may choose freely: those after
/// the delegated prefix and within the subnet prefix.
pub open spec fn subnet_bits_word(main_prefix_length: int, subnet_prefix_length: int, i: int) -> u16 {
    !word_mask(main_prefix_length, i) & word_mask(subnet_prefix_length, i)
}

/// The subnet that the random words `random` select: its free bits taken from
/// `random`, combined with the delegated prefix.
pub open spec fn subnet_candidate(
    prefix: Seq<u16>,
    main_prefix_length: int,
    subnet_prefix_length: int,
    random: Seq<u16>,
) -> Seq<u16> {
    Seq::new(
        8,
        |i: int|
            (random[i] & subnet_bits_word(main_prefix_length, subnet_prefix_length, i)) | prefix[i],
    )
}

/// `subnet` is the candidate of some choice of random words (for instance of
/// itself).
pub open spec fn is_subnet_candidate(
    subnet: Seq<u16>,
    prefix: Seq<u16>,
    main_prefix_length: int,
    subnet_prefix_length: int,
) -> bool {
    subnet.len() == 8 && subnet == subnet_candidate(
        prefix,
        main_prefix_length,
        subnet_prefix_length,
        subnet,
    )
}

/// No address occurs twice in `addrs`.
pub open spec fn all_distinct(addrs: Seq<[u16; 8]>) -> bool {
    forall|i: int, j: int|
        0 <= i < addrs.len() && 0 <= j < addrs.len() && i != j ==> #[trigger] addrs[i]@
            != #[trigger] addrs[j]@
}

/// The declaration of `rand`'s thread-local generator, carried through opaque.
#[verifier::external_type_specification]
#[verifier::external_body]
pub struct ExThreadRng(rand::rngs::ThreadRng);

/// Calls `rand::thread_rng`, which hands out the thread-local generator;
/// nothing is claimed of it.
#[verifier::external_body]
fn thread_rng() -> rand::rngs::ThreadRng {
    rand::thread_rng()
}

/// Calls `Rng::gen` for eight random words; any eight words may come back, so
/// nothing is claimed of them.
#[verifier::external_body]
fn gen_address(rng: &mut rand::rngs::ThreadRng) -> [u16; 8] {
    rng.gen()
}

/// Whether the two addresses are equal word for word.
fn same_address(a: &[u16; 8], b: &[u16; 8]) -> (r: bool)
    ensures
        r == (a@ == b@),
{
    let mut i: usize = 0;
    while i < 8
        invariant
            i <= 8,
            forall|j: int| 0 <= j < i ==> a@[j] == b@[j],
        decreases 8 - i,
    {
        if a[i] != b[i] {
            return false;
        }
        i = i + 1;
    }
    assert(a@ =~= b@);
    true
}

/// Whether `addr` occurs in `addrs`.
fn contains_address(addrs: &Vec<[u16; 8]>, addr: &[u16; 8]) -> (r: bool)
    ensures
        r == (exists|i: int| 0 <= i < addrs.len() && #[trigger] addrs@[i]@ == addr@),
{
    let mut i: usize = 0;
    while i < addrs.len()
        invariant
            i <= addrs.len(),
            forall|j: int| 0 <= j < i ==> #[trigger] addrs@[j]@ != addr@,
        decreases addrs.len() - i,
    {
        if same_address(&addrs[i], addr) {
            return true;
        }
        i = i + 1;
    }
    false
}

/// Computes the candidate that the random words `random` select.
fn subnet_from_random(prefix: &[u16; 8], bits: &[u16; 8], random: &[u16; 8]) -> (subnet: [u16; 8])
    ensures
        forall|i: int| 0 <= i < 8 ==> #[trigger] subnet@[i] == (random@[i] & bits@[i]) | prefix@[i],
{
    let mut subnet = *random;
    let mut i: usize = 0;
    while i < 8
        invariant
            i <= 8,
            forall|j: int| 0 <= j < i ==> #[trigger] subnet@[j] == (random@[j] & bits@[j]) | prefix@[j],
        decreases 8 - i,
    {
        subnet[i] = (random[i] & bits[i]) | prefix[i];
        i = i + 1;
    }
    subnet
}

/// The candidate that a choice of random words selects is a candidate: taking
/// it as the random words again selects it once more.
proof fn lemma_candidate_is_candidate(
    prefix: Seq<u16>,
    main_prefix_length: int,
    subnet_prefix_length: int,
    random: Seq<u16>,
)
    ensures
        is_subnet_candidate(
            subnet_candidate(prefix, main_prefix_length, subnet_prefix_length, random),
            prefix,
            main_prefix_length,
            subnet_prefix_length,
        ),
{
    let c = subnet_candidate(prefix, main_prefix_length, subnet_prefix_length, random);
    assert forall|i: int| 0 <= i < 8 implies #[trigger] subnet_candidate(
        prefix,
        main_prefix_length,
        subnet_prefix_length,
        c,
    )[i] == c[i] by {
        let r = random[i];
        let b = subnet_bits_word(main_prefix_length, subnet_prefix_length, i);
        let p = prefix[i];
        assert((((r & b) | p) & b) | p == (r & b) | p) by (bit_vector);
    }
    assert(subnet_candidate(prefix, main_prefix_length, subnet_prefix_length, c) =~= c);
}

/// The addresses as plain sequences of words.
pub open spec fn address_views(addrs: Seq<[u16; 8]>) -> Seq<Seq<u16>> {
    addrs.map_values(|a: [u16; 8]| a@)
}

/// The list of subnets after one more draw has selected `candidate`: it is
/// added at the end unless it is already in the list.
pub open spec fn after_draw(subnets: Seq<Seq<u16>>, candidate: Seq<u16>) -> Seq<Seq<u16>> {
    if subnets.contains(candidate) {
        subnets
    } else {
        subnets.push(candidate)
    }
}

/// The list of subnets that the random draws `draws` (in order) build up,
/// starting from none.
pub open spec fn subnets_after_draws(
    prefix: Seq<u16>,
    main_prefix_length: int,
    subnet_prefix_length: int,
    draws: Seq<Seq<u16>>,
) -> Seq<Seq<u16>>
    decreases draws.len(),
{
    if draws.len() == 0 {
        Seq::empty()
    } else {
        after_draw(
            subnets_after_draws(prefix, main_prefix_length, subnet_prefix_length, draws.drop_last()),
            subnet_candidate(prefix, main_prefix_length, subnet_prefix_length, draws.last()),
        )
    }
}

/// The free bits of each word of a subnet between the two lengths.
fn subnet_bits(main_prefix_length: u8, subnet_prefix_length: u8) -> (bits: [u16; 8])
    ensures
        forall|j: int|
            0 <= j < 8 ==> #[trigger] bits@[j] == subnet_bits_word(
                main_prefix_length as int,
                subnet_prefix_length as int,
                j,
            ),
{
    let mainnet_mask = prefix_mask(main_prefix_length);
    let subnet_mask = prefix_mask(subnet_prefix_length);
    let mut bits = [0u16; 8];
    let mut i: usize = 0;
    while i < 8
        invariant
            i <= 8,
            forall|j: int|
                0 <= j < 8 ==> #[trigger] mainnet_mask@[j] == word_mask(main_prefix_length as int, j),
            forall|j: int|
                0 <= j < 8 ==> #[trigger] subnet_mask@[j] == word_mask(subnet_prefix_length as int, j),
            forall|j: int|
                0 <= j < i ==> #[trigger] bits@[j] == subnet_bits_word(
                    main_prefix_length as int,
                    subnet_prefix_length as int,
                    j,
                ),
        decreases 8 - i,
    {
        bits[i] = (!mainnet_mask[i]) & subnet_mask[i];
        i = i + 1;
    }
    bits
}

/// Takes one random draw into the list of subnets found so far: the subnet
/// of the delegated network `prefix/main_prefix_length`, `subnet_prefix_length`
/// bits long, that the random words `random` select is added unless the list
/// holds it already.
pub fn add_subnet_draw(
    subnets: &mut Vec<[u16; 8]>,
    prefix: &[u16; 8],
    main_prefix_length: u8,
    subnet_prefix_length: u8,
    random: &[u16; 8],
)
    ensures
        address_views(final(subnets)@) == after_draw(
            address_views(old(subnets)@),
            subnet_candidate(prefix@, main_prefix_length as int, subnet_prefix_length as int, random@),
        ),
{
    let bits = subnet_bits(main_prefix_length, subnet_prefix_length);
    let candidate = subnet_from_random(prefix, &bits, random);
    let ghost c = subnet_candidate(
        prefix@,
        main_prefix_length as int,
        subnet_prefix_length as int,
        random@,
    );
    let ghost before = address_views(subnets@);
    assert(candidate@ =~= c);
    let found = contains_address(subnets, &candidate);
    if found {
        let ghost k = choose|k: int| 0 <= k < subnets@.len() && #[trigger] subnets@[k]@ == candidate@;
        assert(before[k] == c);
        assert(before.contains(c));
    } else {
        assert(!before.contains(c)) by {
            if before.contains(c) {
                let k = choose|k: int| 0 <= k < before.len() && before[k] == c;
                assert(subnets@[k]@ == candidate@);
            }
        }
        subnets.push(candidate);
        assert(address_views(subnets@) =~= before.push(c));
    }
}

/// Adding the draw's candidate keeps a list without repeats free of repeats,
/// and keeps a list of candidates a list of candidates.
proof fn lemma_after_draw_keeps_distinct_candidates(
    old_list: Seq<[u16; 8]>,
    new_list: Seq<[u16; 8]>,
    prefix: Seq<u16>,
    main_prefix_length: int,
    subnet_prefix_length: int,
    random: Seq<u16>,
)
    requires
        all_distinct(old_list),
        forall|k: int|
            0 <= k < old_list.len() ==> is_subnet_candidate(
                #[trigger] old_list[k]@,
                prefix,
                main_prefix_length,
                subnet_prefix_length,
            ),
        address_views(new_list) == after_draw(
            address_views(old_list),
            subnet_candidate(prefix, main_prefix_length, subnet_prefix_length, random),
        ),
    ensures
        1 <= new_list.len() <= old_list.len() + 1,
        all_distinct(new_list),
        forall|k: int|
            0 <= k < new_list.len() ==> is_subnet_candidate(
                #[trigger] new_list[k]@,
                prefix,
                main_prefix_length,
                subnet_prefix_length,
            ),
{
    let c = subnet_candidate(prefix, main_prefix_length, subnet_prefix_length, random);
    let before = address_views(old_list);
    lemma_candidate_is_candidate(prefix, main_prefix_length, subnet_prefix_length, random);
    assert(new_list.len() == address_views(new_list).len());
    assert forall|k: int| 0 <= k < new_list.len() implies #[trigger] new_list[k]@ == (if k
        < old_list.len() {
        old_list[k]@
    } else {
        c
    }) by {
        assert(address_views(new_list)[k] == new_list[k]@);
    }
    if before.contains(c) {
        assert(old_list.len() >= 1);
    } else {
        assert forall|k: int| 0 <= k < old_list.len() implies #[trigger] old_list[k]@ != c by {
            assert(before[k] == old_list[k]@);
        }
    }
}

/// What `generate_unique_random_subnet` gives back for the delegated network
/// `prefix/main_prefix_length`, a requested subnet length (read as described
/// at `effective_subnet_length`) and a number of subnets: the length errors
/// exactly when the lengths call for them; success whenever at most one
/// subnet is asked for; the draw error only after `u64::MAX` draws that left
/// too few subnets; and on success as many subnets as asked for, no two
/// alike, of the effective length, built up through `after_draw` by some
/// sequence of draws.
pub open spec fn generation_outcome(
    prefix: Seq<u16>,
    main_prefix_length: int,
    subnet_prefix_length: int,
    number_of_subnets: int,
    r: Result<(Vec<[u16; 8]>, u8), String>,
) -> bool {
    let len = effective_subnet_length(main_prefix_length, subnet_prefix_length);
    &&& len > 128 ==> (r matches Err(e) && e@ == "Subnet prefix length must be less than 128"@)
    &&& len <= 128 && main_prefix_length > len ==> (r matches Err(e) && e@
        == "Mainnet prefix length must be less than 128"@)
    &&& len <= 128 && main_prefix_length == len ==> (r matches Err(e) && e@
        == "Mainnet prefix length must be less than subnet prefix length"@)
    &&& len <= 128 && main_prefix_length < len ==> (r matches Err(e) ==> {
        &&& e@ == "Ran out of random draws before enough distinct subnets were found"@
        &&& exists|draws: Seq<Seq<u16>>|
            draws.len() == u64::MAX && #[trigger] subnets_after_draws(
                prefix,
                main_prefix_length,
                len,
                draws,
            ).len() < number_of_subnets
    })
    &&& len <= 128 && main_prefix_length < len && number_of_subnets <= 1 ==> r is Ok
    &&& r matches Ok((subnets, l)) ==> {
        &&& l == len
        &&& main_prefix_length < len <= 128
        &&& subnets.len() == number_of_subnets
        &&& all_distinct(subnets@)
        &&& forall|i: int|
            0 <= i < subnets.len() ==> is_subnet_candidate(
                #[trigger] subnets@[i]@,
                prefix,
                main_prefix_length,
                len,
            )
        &&& exists|draws: Seq<Seq<u16>>|
            #[trigger] subnets_after_draws(prefix, main_prefix_length, len, draws) == address_views(
                subnets@,
            )
    }
}

/// Draws `number_of_subnets` distinct random subnets of the delegated network
/// `prefix/main_prefix_length`, each `subnet_prefix_length` bits long (read as
/// described at `effective_subnet_length`), and returns them with that length.
/// Every bit between the two lengths is drawn at random; each draw goes
/// through `add_subnet_draw`. The draws stop with an error only after
/// `u64::MAX` draws.
pub fn generate_unique_random_subnet(
    prefix: &[u16; 8],
    main_prefix_length: u8,
    subnet_prefix_length: u8,
    number_of_subnets: usize,
) -> (r: Result<(Vec<[u16; 8]>, u8), String>)
    requires
        subnet_prefix_length > 128 ==> subnet_prefix_length - 128 + main_prefix_length <= 255,
    ensures
        generation_outcome(
            prefix@,
            main_prefix_length as int,
            subnet_prefix_length as int,
            number_of_subnets as int,
            r,
        ),
{
    let sub_len = if subnet_prefix_length > 128 {
        subnet_prefix_length - 128 + main_prefix_length
    } else {
        subnet_prefix_length
    };
    if sub_len > 128 {
        return Err("Subnet prefix length must be less than 128".to_string());
    }
    if main_prefix_length > sub_len {
        return Err("Mainnet prefix length must be less than 128".to_string());
    } else if main_prefix_length == sub_len {
        return Err("Mainnet prefix length must be less than subnet prefix length".to_string());
    }
    let ghost main = main_prefix_length as int;
    let ghost len = sub_len as int;

    let mut subnet_prefixs: Vec<[u16; 8]> = Vec::new();
    let mut rng = thread_rng();
    let mut draws: u64 = 0;
    let ghost mut drawn: Seq<Seq<u16>> = Seq::empty();
    assert(address_views(subnet_prefixs@) =~= subnets_after_draws(prefix@, main, len, drawn));
    while subnet_prefixs.len() < number_of_subnets
        invariant
            main == main_prefix_length,
            len == sub_len,
            len == effective_subnet_length(main, subnet_prefix_length as int),
            main < len <= 128,
            subnet_prefixs.len() <= number_of_subnets,
            subnet_prefixs.len() == 0 ==> draws == 0,
            drawn.len() == draws,
            address_views(subnet_prefixs@) == subnets_after_draws(prefix@, main, len, drawn),
            all_distinct(subnet_prefixs@),
            forall|k: int|
                0 <= k < subnet_prefixs.len() ==> is_subnet_candidate(
                    #[trigger] subnet_prefixs@[k]@,
                    prefix@,
                    main,
                    len,
                ),
        decreases u64::MAX - draws,
    {
        if draws == u64::MAX {
            assert(subnets_after_draws(prefix@, main, len, drawn).len() < number_of_subnets);
            return Err("Ran out of random draws before enough distinct subnets were found".to_string());
        }
        draws = draws + 1;
        let random = gen_address(&mut rng);
        let ghost before = subnet_prefixs@;
        add_subnet_draw(&mut subnet_prefixs, prefix, main_prefix_length, sub_len, &random);
        proof {
            lemma_after_draw_keeps_distinct_candidates(
                before,
                subnet_prefixs@,
                prefix@,
                main,
                len,
                random@,
            );
            let next = drawn.push(random@);
            assert(next.drop_last() =~= drawn);
            drawn = next;
        }
    }
    Ok((subnet_prefixs, sub_len))
}

/// A requested subnet length of `128 + k` means the delegated length plus
/// `k`: the generator owes exactly the same outcomes for the request
/// `128 + k` as for the request `main_prefix_length + k`.
pub proof fn lemma_extended_length_is_delegated_plus(
    prefix: Seq<u16>,
    main_prefix_length: u8,
    k: u8,
    number_of_subnets: int,
    r: Result<(Vec<[u16; 8]>, u8), String>,
)
    requires
        1 <= k <= 127,
        main_prefix_length + k <= 128,
    ensures
        effective_subnet_length(main_prefix_length as int, 128 + k)
            == effective_subnet_length(main_prefix_length as int, main_prefix_length + k),
        generation_outcome(prefix, main_prefix_length as int, 128 + k, number_of_subnets, r)
            == generation_outcome(
            prefix,
            main_prefix_length as int,
            main_prefix_length + k,
            number_of_subnets,
            r,
        ),
{
}


/// Every subnet that the generator can pick lies inside the delegated network:
/// its first `main_prefix_length` bits are those of the delegated prefix.
pub proof fn lemma_subnet_candidate_in_delegated_prefix(
    subnet: Seq<u16>,
    prefix: Seq<u16>,
    main_prefix_length: int,
    subnet_prefix_length: int,
)
    requires
        prefix.len() == 8,
        is_subnet_candidate(subnet, prefix, main_prefix_length, subnet_prefix_length),
        0 <= main_prefix_length < subnet_prefix_length <= 128,
    ensures
        starts_with_prefix(subnet, prefix, main_prefix_length),
{
    let main = main_prefix_length;
    let len = subnet_prefix_length;
    assert forall|i: int| 0 <= i < 8 implies #[trigger] (subnet[i] & word_mask(main, i)) == prefix[i]
        & word_mask(main, i) by {
        let x = subnet[i];
        let p = prefix[i];
        let w = word_mask(len, i);
        let v = word_mask(main, i);
        assert(x == subnet_candidate(prefix, main, len, subnet)[i]);
        assert(x & v == p & v) by (bit_vector)
            requires
                x == (x & (!v & w)) | p,
        ;
    }
}

/// Every subnet of the requested length inside the delegated network is one
/// that the generator can pick: an address that agrees with the delegated
/// prefix on its first `main_prefix_length` bits and has no bit set after the
/// first `subnet_prefix_length` is a candidate (the delegated prefix itself
/// having no bit set after its length).
pub proof fn lemma_every_subnet_is_candidate(
    subnet: Seq<u16>,
    prefix: Seq<u16>,
    main_prefix_length: int,
    subnet_prefix_length: int,
)
    requires
        subnet.len() == 8,
        prefix.len() == 8,
        masked(prefix, main_prefix_length) == prefix,
        masked(subnet, subnet_prefix_length) == subnet,
        starts_with_prefix(subnet, prefix, main_prefix_length),
    ensures
        is_subnet_candidate(subnet, prefix, main_prefix_length, subnet_prefix_length),
{
    let main = main_prefix_length;
    let len = subnet_prefix_length;
    let c = subnet_candidate(prefix, main, len, subnet);
    assert forall|i: int| 0 <= i < 8 implies #[trigger] c[i] == subnet[i] by {
        let x = subnet[i];
        let p = prefix[i];
        let w = word_mask(len, i);
        let v = word_mask(main, i);
        assert(masked(subnet, len)[i] == x);
        assert(masked(prefix, main)[i] == p);
        assert((x & (!v & w)) | p == x) by (bit_vector)
            requires
                x & w == x,
                p & v == p,
                x & v == p & v,
        ;
    }
    assert(c =~= subnet);
}

/// The first address of a network agrees with the network's prefix on every
/// shorter prefix that ends before the last word.
pub proof fn lemma_first_address_keeps_short_prefix(prefix: Seq<u16>, prefix_length: int, shorter: int)
    requires
        prefix.len() == 8,
        shorter <= prefix_length,
        shorter <= 112,
    ensures
        starts_with_prefix(first_address(prefix, prefix_length), prefix, shorter),
{
    let m = masked(prefix, prefix_length);
    let a = first_address(prefix, prefix_length);
    lemma_masked_prefix(prefix, prefix_length);
    lemma_starts_with_shorter_prefix(m, prefix, prefix_length, shorter);
    assert forall|i: int| 0 <= i < 8 implies #[trigger] (a[i] & word_mask(shorter, i)) == m[i]
        & word_mask(shorter, i) by {
        if i == 7 {
            let x = a[7];
            let y = m[7];
            assert(word_mask(shorter, 7) == 0u16);
            assert(x & 0u16 == y & 0u16) by (bit_vector);
        }
    }
    lemma_starts_with_prefix_transitive(a, m, prefix, shorter);
}

/// The first address of a network shorter than 128 bits lies inside it.
pub proof fn lemma_first_address_in_prefix(prefix: Seq<u16>, prefix_length: int)
    requires
        prefix.len() == 8,
        0 <= prefix_length < 128,
    ensures
        starts_with_prefix(first_address(prefix, prefix_length), prefix, prefix_length),
{
    let a = first_address(prefix, prefix_length);
    assert forall|i: int| 0 <= i < 8 implies #[trigger] (a[i] & word_mask(prefix_length, i))
        == prefix[i] & word_mask(prefix_length, i) by {
        let x = prefix[i];
        let m = word_mask(prefix_length, i);
        if i == 7 {
            if prefix_length > 112 {
                let s = (128 - prefix_length) as u16;
                assert(m == 0xffffu16 << s);
                assert((((x & m) + 1) as u16) & m == x & m) by (bit_vector)
                    requires
                        1 <= s <= 15,
                        m == 0xffffu16 << s,
                ;
            } else {
                assert(m == 0u16);
                assert(a[7] & 0u16 == 0u16 && x & 0u16 == 0u16) by (bit_vector);
            }
        } else {
            assert((x & m) & m == x & m) by (bit_vector);
        }
    }
}


/// Agreement on a prefix implies agreement on every shorter prefix.
pub proof fn lemma_starts_with_shorter_prefix(
    addr: Seq<u16>,
    prefix: Seq<u16>,
    prefix_length: int,
    shorter: int,
)
    requires
        addr.len() == 8,
        prefix.len() == 8,
        shorter <= prefix_length,
        starts_with_prefix(addr, prefix, prefix_length),
    ensures
        starts_with_prefix(addr, prefix, shorter),
{
    lemma_starts_with_prefix_bits(addr, prefix, prefix_length);
    lemma_starts_with_prefix_bits(addr, prefix, shorter);
}

/// Every address starts with itself, and agreement on a prefix is symmetric.
pub proof fn lemma_starts_with_prefix_reflexive_symmetric(
    a: Seq<u16>,
    b: Seq<u16>,
    prefix_length: int,
)
    ensures
        starts_with_prefix(a, a, prefix_length),
        starts_with_prefix(a, b, prefix_length) == starts_with_prefix(b, a, prefix_length),
{
}

/// Agreement on a prefix of a given length is transitive.
pub proof fn lemma_starts_with_prefix_transitive(
    a: Seq<u16>,
    b: Seq<u16>,
    c: Seq<u16>,
    prefix_length: int,
)
    requires
        starts_with_prefix(a, b, prefix_length),
        starts_with_prefix(b, c, prefix_length),
    ensures
        starts_with_prefix(a, c, prefix_length),
{
    assert forall|i: int| 0 <= i < 8 implies #[trigger] (a[i] & word_mask(prefix_length, i)) == c[i]
        & word_mask(prefix_length, i) by {
        assert(a[i] & word_mask(prefix_length, i) == b[i] & word_mask(prefix_length, i));
        assert(b[i] & word_mask(prefix_length, i) == c[i] & word_mask(prefix_length, i));
    }
}

/// Masking an address leaves its first `prefix_length` bits and clears the
/// rest, so masking twice changes nothing.
pub proof fn lemma_masked_prefix(addr: Seq<u16>, prefix_length: int)
    requires
        addr.len() == 8,
    ensures
        starts_with_prefix(masked(addr, prefix_length), addr, prefix_length),
        masked(masked(addr, prefix_length), prefix_length) == masked(addr, prefix_length),
        forall|i: int|
            0 <= i < 8 ==> #[trigger] (masked(addr, prefix_length)[i] & !word_mask(prefix_length, i))
                == 0,
{
    let m = masked(addr, prefix_length);
    assert forall|i: int| 0 <= i < 8 implies (#[trigger] m[i] & word_mask(prefix_length, i))
        == addr[i] & word_mask(prefix_length, i) && (m[i] & !word_mask(prefix_length, i)) == 0 by {
        let x = addr[i];
        let w = word_mask(prefix_length, i);
        assert((x & w) & w == x & w && ((x & w) & !w) == 0) by (bit_vector);
    }
    assert(masked(m, prefix_length) =~= m);
}


/// The address that keeps the first `random_start_index` bits of `prefix` and
/// takes the remaining bits from `random`.
pub open spec fn with_random_suffix(prefix: Seq<u16>, random_start_index: int, random: Seq<u16>) -> Seq<u16> {
    Seq::new(
        8,
        |i: int|
            (prefix[i] & word_mask(random_start_index, i)) | (random[i] & !word_mask(
                random_start_index,
                i,
            )),
    )
}

/// Combines the first `random_start_index` bits of `prefix` with the other
/// bits of `random`, or refuses an index above 128.
pub fn ipv6_with_random_suffix(prefix: &[u16; 8], random_start_index: u8, random: &[u16; 8]) -> (r:
    Result<[u16; 8], String>)
    ensures
        r is Err <==> random_start_index > 128,
        r matches Err(e) ==> e@ == "Prefix length must be less than 128"@,
        r matches Ok(a) ==> a@ == with_random_suffix(prefix@, random_start_index as int, random@),
{
    if random_start_index > 128 {
        return Err("Prefix length must be less than 128".to_string());
    }
    let mask = prefix_mask(random_start_index);
    let mut random_ipv6 = [0u16; 8];
    let mut i: usize = 0;
    while i < 8
        invariant
            i <= 8,
            forall|j: int| 0 <= j < 8 ==> #[trigger] mask@[j] == word_mask(random_start_index as int, j),
            forall|j: int|
                0 <= j < i ==> #[trigger] random_ipv6@[j] == with_random_suffix(
                    prefix@,
                    random_start_index as int,
                    random@,
                )[j],
        decreases 8 - i,
    {
        random_ipv6[i] = prefix[i] & mask[i] | random[i] & !mask[i];
        i = i + 1;
    }
    assert(random_ipv6@ =~= with_random_suffix(prefix@, random_start_index as int, random@));
    Ok(random_ipv6)
}

/// An address made of the first bits of a prefix and any other bits lies in
/// that prefix.
pub proof fn lemma_random_suffix_keeps_prefix(prefix: Seq<u16>, random_start_index: int, random: Seq<u16>)
    ensures
        starts_with_prefix(with_random_suffix(prefix, random_start_index, random), prefix, random_start_index),
{
    let a = with_random_suffix(prefix, random_start_index, random);
    assert forall|i: int| 0 <= i < 8 implies #[trigger] (a[i] & word_mask(random_start_index, i))
        == prefix[i] & word_mask(random_start_index, i) by {
        let p = prefix[i];
        let r = random[i];
        let m = word_mask(random_start_index, i);
        assert(((p & m) | (r & !m)) & m == p & m) by (bit_vector);
    }
}

/// A random address inside `prefix/random_start_index`: the first
/// `random_start_index` bits come from the prefix, the others at random.
pub fn generate_random_ipv6_with_prefix(prefix: &[u16; 8], random_start_index: u8) -> (r: Result<
    [u16; 8],
    String,
>)
    ensures
        r is Err <==> random_start_index > 128,
        r matches Err(e) ==> e@ == "Prefix length must be less than 128"@,
        r matches Ok(a) ==> a@ == with_random_suffix(prefix@, random_start_index as int, a@),
        r matches Ok(a) ==> starts_with_prefix(a@, prefix@, random_start_index as int),
{
    if random_start_index > 128 {
        return Err("Prefix length must be less than 128".to_string());
    }
    let mut rng = thread_rng();
    let random_bytes = gen_address(&mut rng);
    let r = ipv6_with_random_suffix(prefix, random_start_index, &random_bytes);
    proof {
        if let Ok(a) = r {
            lemma_random_suffix_keeps_prefix(prefix@, random_start_index as int, random_bytes@);
            let len = random_start_index as int;
            assert forall|i: int| 0 <= i < 8 implies #[trigger] with_random_suffix(
                prefix@,
                len,
                a@,
            )[i] == a@[i] by {
                let p = prefix@[i];
                let x = random_bytes@[i];
                let m = word_mask(len, i);
                assert((p & m) | (((p & m) | (x & !m)) & !m) == (p & m) | (x & !m)) by (bit_vector);
            }
            assert(with_random_suffix(prefix@, len, a@) =~= a@);
        }
    }
    r
}


} // verus!
