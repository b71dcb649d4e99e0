//! The throughput benchmark: the server shares a memory buffer, the client
//! fetches it a given number of times (checking it in test mode) and then
//! signals the server's end handler.
use vstd::prelude::*;

verus! {

/// Id of the server's shared memory.
pub const THROUGHPUT_MEM_CAP: u64 = 200;

/// Id of the server's end handler.
pub const THROUGHPUT_END_CAP: u64 = 300;

/// Bytes credited to one fetch when the transfer rate is reported.
pub const BYTES_PER_FETCH: u128 = 1024;

/// Length in bytes of the buffer the server shares: 2^20 + 2^8.
pub const SERVER_BUFFER_LEN: usize = 1048832;

/// The byte the server's buffer holds at position `i`: three times `i`,
/// modulo 256.
pub open spec fn server_byte(i: int) -> u8 {
    ((3 * i) % 256) as u8
}

/// The buffer the server shares: `SERVER_BUFFER_LEN` bytes, counting up from
/// zero in steps of three and wrapping around at 256.
pub fn server_buffer() -> (buf: Vec<u8>)
    ensures
        buf@.len() == SERVER_BUFFER_LEN,
        forall|i: int| 0 <= i < buf@.len() ==> buf@[i] == server_byte(i),
        forall|i: int| 0 <= i < buf@.len() ==> buf@[i] as int == (3 * i) % 256,
{
    let mut buf: Vec<u8> = Vec::new();
    let mut val: u8 = 0;
    let mut i: usize = 0;
    while i < SERVER_BUFFER_LEN
        invariant
            i <= SERVER_BUFFER_LEN,
            buf@.len() == i,
            val == server_byte(i as int),
            forall|j: int| 0 <= j < i ==> buf@[j] == server_byte(j),
        decreases SERVER_BUFFER_LEN - i,
    {
        buf.push(val);
        proof {
            lemma_server_byte_step(i as int);
        }
        val = val.wrapping_add(3);
        i = i + 1;
    }
    proof {
        assert forall|i: int| 0 <= i < buf@.len() implies buf@[i] as int == (3 * i) % 256 by {
            vstd::arithmetic::div_mod::lemma_mod_bound(3 * i, 256);
            assert(buf@[i] == server_byte(i));
        }
    }
    buf
}

/// The server's buffer starts at zero, each byte is three more than the one
/// before it modulo 256, and the pattern repeats every 256 bytes.
pub proof fn lemma_server_byte_pattern(i: int)
    requires
        i >= 0,
    ensures
        server_byte(0) == 0,
        server_byte(i + 1) as int == (server_byte(i) + 3) % 256,
        server_byte(i + 256) == server_byte(i),
        server_byte(i) == 0 <==> i % 256 == 0,
{
    lemma_server_byte_step(i);
    vstd::arithmetic::div_mod::lemma_mod_bound(3 * i, 256);
    vstd::arithmetic::div_mod::lemma_add_mod_noop(3 * i, 768, 256);
    assert(3 * (i + 256) == 3 * i + 768);
    assert(768int % 256 == 0);
    vstd::arithmetic::div_mod::lemma_mod_bound(3 * i, 256);
    let a = (3 * i) % 256;
    vstd::arithmetic::div_mod::lemma_small_mod(a as nat, 256);
    if a + 3 > 255 {
        vstd::arithmetic::div_mod::lemma_fundamental_div_mod_converse(a + 3, 256, 1, a + 3 - 256);
    } else {
        vstd::arithmetic::div_mod::lemma_small_mod((a + 3) as nat, 256);
    }
    vstd::arithmetic::div_mod::lemma_fundamental_div_mod(3 * i, 256);
    vstd::arithmetic::div_mod::lemma_fundamental_div_mod(i, 256);
    vstd::arithmetic::div_mod::lemma_mod_bound(i, 256);
    let q = (3 * i) / 256;
    let qi = i / 256;
    let ri = i % 256;
    if a == 0 {
        // 3 * i == 256 * q, so 256 divides i, since 3 and 256 share no factor.
        assert(3 * ri == 256 * (q - 3 * qi)) by (nonlinear_arith)
            requires
                3 * i == 256 * q + a,
                i == 256 * qi + ri,
                a == 0,
        ;
        assert(ri == 0) by (nonlinear_arith)
            requires
                3 * ri == 256 * (q - 3 * qi),
                0 <= ri < 256,
        ;
    }
    if ri == 0 {
        assert(3 * i == 256 * (3 * qi)) by (nonlinear_arith)
            requires
                i == 256 * qi + ri,
                ri == 0,
        ;
        vstd::arithmetic::div_mod::lemma_fundamental_div_mod_converse(3 * i, 256, 3 * qi, 0);
    }
}

/// The number of nonzero bytes is the length of the bytes that are kept when
/// the zero bytes are filtered out; it is at most the length.
pub proof fn lemma_nonzero_count_filter(s: Seq<u8>)
    ensures
        nonzero_count(s) == s.filter(|b: u8| b != 0).len(),
        nonzero_count(s) <= s.len(),
    decreases s.len(),
{
    reveal(Seq::filter);
    if s.len() > 0 {
        lemma_nonzero_count_filter(s.drop_last());
    }
}

proof fn lemma_server_byte_step(i: int)
    requires
        i >= 0,
    ensures
        server_byte(i + 1) == (if server_byte(i) + 3 > 255 {
            server_byte(i) + 3 - 256
        } else {
            server_byte(i) + 3
        }),
{
    let a = (3 * i) % 256;
    vstd::arithmetic::div_mod::lemma_mod_bound(3 * i, 256);
    vstd::arithmetic::div_mod::lemma_add_mod_noop(3 * i, 3, 256);
    assert(3 * (i + 1) == 3 * i + 3);
    assert(3int % 256 == 3);
    assert((3 * (i + 1)) % 256 == (a + 3) % 256);
    if a + 3 > 255 {
        vstd::arithmetic::div_mod::lemma_fundamental_div_mod_converse(a + 3, 256, 1, a + 3 - 256);
    } else {
        vstd::arithmetic::div_mod::lemma_small_mod((a + 3) as nat, 256);
    }
}

/// The number of bytes of `s` that are not zero.
pub open spec fn nonzero_count(s: Seq<u8>) -> nat
    decreases s.len(),
{
    if s.len() == 0 {
        0
    } else {
        nonzero_count(s.drop_last()) + if s.last() != 0 {
            1nat
        } else {
            0nat
        }
    }
}

/// The number of transmission errors the client reports for a fetched
/// buffer in test mode: one for each byte that is not zero.
pub fn transmission_errors(data: &Vec<u8>) -> (r: usize)
    ensures
        r == nonzero_count(data@),
{
    let mut r: usize = 0;
    let mut i: usize = 0;
    while i < data.len()
        invariant
            i <= data@.len(),
            r == nonzero_count(data@.take(i as int)),
            r <= i,
        decreases data@.len() - i,
    {
        assert(data@.take(i as int + 1).drop_last() =~= data@.take(i as int));
        if data[i] != 0 {
            r = r + 1;
        }
        i = i + 1;
    }
    assert(data@.take(i as int) =~= data@);
    r
}

/// The rate the client reports, in bytes per microsecond, for `fetches`
/// fetches that took `micros` microseconds: `BYTES_PER_FETCH * fetches / micros`,
/// rounded down.
pub fn transfer_rate(fetches: u128, micros: u128) -> (r: u128)
    requires
        micros > 0,
        BYTES_PER_FETCH * fetches <= u128::MAX,
    ensures
        r == (BYTES_PER_FETCH * fetches) / (micros as int),
{
    BYTES_PER_FETCH * fetches / micros
}

/// The numbers of fetches of a scaling evaluation.
pub open spec fn spec_scaling_fetches() -> Seq<u128> {
    seq![10, 100, 1000, 2000, 3000, 4000, 5000, 6000, 7000]
}

/// The numbers of fetches the benchmark runs with: those of a scaling
/// evaluation, or else the one number asked for.
pub fn benchmark_fetches(scaling: bool, iterations: u128) -> (r: Vec<u128>)
    ensures
        r@ == if scaling {
            spec_scaling_fetches()
        } else {
            seq![iterations]
        },
{
    let mut r: Vec<u128> = Vec::new();
    if scaling {
        r.push(10);
        r.push(100);
        r.push(1000);
        r.push(2000);
        r.push(3000);
        r.push(4000);
        r.push(5000);
        r.push(6000);
        r.push(7000);
        assert(r@ =~= spec_scaling_fetches());
    } else {
        r.push(iterations);
        assert(r@ =~= seq![iterations]);
    }
    r
}

} // verus!
