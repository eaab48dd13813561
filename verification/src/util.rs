//! Segment names, random identifiers and access keys.
use sha2::{Digest, Sha256};
use vstd::prelude::*;

use crate::bytes;
use crate::shm;
use crate::text;

verus! {

/// Name of the control segment.
pub const CONTROL_SEGMENT: &'static str = "/impulse-ring.ctl.v1";

/// A segment name with a number in it.
pub open spec fn numbered(front: Seq<char>, n: nat) -> Seq<char> {
    front + text::decimal(n) + ".v1"@
}

fn numbered_string(front: &str, n: u64) -> (r: String)
    ensures
        r@ == numbered(front@, n as nat),
{
    let mut s: String = front.to_owned();
    s.append(text::decimal_string(n).as_str());
    s.append(".v1");
    s
}

/// Name of a connector's reply segment, by the connector's nonce.
pub fn client_segment(nonce: u64) -> (r: String)
    ensures
        r@ == numbered("/impulse-ring.cli."@, nonce as nat),
{
    numbered_string("/impulse-ring.cli.", nonce)
}

/// Name of a channel's data arena.
pub fn channel_arena(channel_id: u64) -> (r: String)
    ensures
        r@ == numbered("/impulse-ring.arena."@, channel_id as nat),
{
    numbered_string("/impulse-ring.arena.", channel_id)
}

/// Name of a function's request arena.
pub fn function_arena(fn_id: u64) -> (r: String)
    ensures
        r@ == numbered("/impulse-ring.fn."@, fn_id as nat),
{
    numbered_string("/impulse-ring.fn.", fn_id)
}

/// The fronts of segment names.
pub open spec fn is_front(front: Seq<char>) -> bool {
    front == "/impulse-ring.cli."@ || front == "/impulse-ring.arena."@ || front
        == "/impulse-ring.fn."@
}

/// Different purposes or different numbers give different segment names, and none of them is
/// the name of the control segment.
pub proof fn law_segment_names_differ(f: Seq<char>, m: nat, g: Seq<char>, n: nat)
    requires
        is_front(f),
        is_front(g),
    ensures
        numbered(f, m) == numbered(g, n) ==> f == g && m == n,
        numbered(f, m) != CONTROL_SEGMENT@,
{
    reveal_strlit("/impulse-ring.cli.");
    reveal_strlit("/impulse-ring.arena.");
    reveal_strlit("/impulse-ring.fn.");
    reveal_strlit("/impulse-ring.ctl.v1");
    reveal_strlit(".v1");
    let a = numbered(f, m);
    let b = numbered(g, n);
    assert(a[14] == f[14] && a[15] == f[15]);
    assert(CONTROL_SEGMENT@[14] == 'c' && CONTROL_SEGMENT@[15] == 't');
    if a == b {
        assert(a[14] == b[14]);
        assert(f[14] == g[14]);
        assert(f == g);
        let x = text::decimal(m);
        let y = text::decimal(n);
        let k = f.len() as int;
        assert(a.len() == b.len());
        assert(a.subrange(k, a.len() - 3) =~= x);
        assert(b.subrange(k, b.len() - 3) =~= y);
        text::lemma_in_base_injective(m, n, 10);
    }
}

/// Every segment name begins with a slash and the prefix that a scan for segments goes by.
pub proof fn law_segment_names_have_prefix(f: Seq<char>, n: nat)
    requires
        is_front(f),
    ensures
        text::occurs_at(numbered(f, n), "/"@ + shm::NAME_PREFIX@, 0),
        text::occurs_at(CONTROL_SEGMENT@, "/"@ + shm::NAME_PREFIX@, 0),
{
    reveal_strlit("/impulse-ring.cli.");
    reveal_strlit("/impulse-ring.arena.");
    reveal_strlit("/impulse-ring.fn.");
    reveal_strlit("/impulse-ring.ctl.v1");
    reveal_strlit("impulse-ring.");
    reveal_strlit("/");
    let p = "/"@ + shm::NAME_PREFIX@;
    assert(numbered(f, n).subrange(0, p.len() as int) =~= p);
    assert(CONTROL_SEGMENT@.subrange(0, p.len() as int) =~= p);
}

// ---- random numbers ------------------------------------------------------------------------

/// The error of the random source.
#[verifier::external_type_specification]
#[verifier::external_body]
pub struct ExRandomError(getrandom::Error);

/// Eight bytes from `getrandom::getrandom`, which fills the buffer that it is given or fails.
/// What the bytes are is left to chance.
#[verifier::external_body]
fn random_bytes() -> (r: Result<Vec<u8>, getrandom::Error>)
    ensures
        r matches Ok(b) ==> b@.len() == 8,
{
    let mut b = vec![0u8; 8];
    getrandom::getrandom(&mut b)?;
    Ok(b)
}

/// The number that eight random bytes stand for.
pub fn u64_of_bytes(b: &Vec<u8>) -> (r: u64)
    requires
        b@.len() == 8,
    ensures
        r as nat == bytes::le_value(b@),
{
    proof {
        assert(b@.subrange(0, 8) =~= b@);
    }
    bytes::get_le(b.as_slice(), 0, 8)
}

/// The number that a draw of eight bytes comes to, `None` where the random source failed.
pub fn number_drawn(drawn: Result<Vec<u8>, getrandom::Error>) -> (r: Option<u64>)
    requires
        drawn matches Ok(b) ==> b@.len() == 8,
    ensures
        match drawn {
            Ok(b) => r matches Some(x) && x as nat == bytes::le_value(b@),
            Err(_) => r is None,
        },
{
    match drawn {
        Ok(b) => Some(u64_of_bytes(&b)),
        Err(_) => None,
    }
}

/// A random number for nonces and correlation ids, `None` where the random source fails.
pub fn random_u64() -> (r: Option<u64>)
    ensures
        r matches Some(x) ==> exists|b: Seq<u8>| b.len() == 8 && x as nat == bytes::le_value(b),
{
    number_drawn(random_bytes())
}

// ---- access keys ---------------------------------------------------------------------------

/// The digest that `sha2::Sha256` gives of some bytes.
pub uninterp spec fn sha256(data: Seq<u8>) -> Seq<u8>;

/// Hashes bytes with `sha2::Sha256::digest`. The result is named `sha256`.
#[verifier::external_body]
fn sha256_of(data: &[u8]) -> (r: [u8; 32])
    ensures
        r@ == sha256(data@),
{
    Sha256::digest(data).into()
}

/// What is hashed in front of every access key.
pub const KEY_SALT: &'static str = "impulse-ring/key/v1:";

/// The hash that an access key is stored and compared as.
pub open spec fn hashed_key(key: Seq<char>) -> Seq<u8> {
    sha256(vstd::utf8::encode_utf8(KEY_SALT@) + vstd::utf8::encode_utf8(key))
}

/// Hashes an access key.
pub fn key_hash(key: &str) -> (r: [u8; 32])
    ensures
        r@ == hashed_key(key@),
{
    let mut data: Vec<u8> = Vec::new();
    data.extend_from_slice(KEY_SALT.as_bytes());
    data.extend_from_slice(key.as_bytes());
    proof {
        assert(data@ =~= vstd::utf8::encode_utf8(KEY_SALT@) + vstd::utf8::encode_utf8(key@));
    }
    sha256_of(data.as_slice())
}

/// Whether an access key is the one that was stored. Every byte is compared, whatever the first
/// ones say.
pub fn key_matches(presented: &str, stored_hash: &[u8; 32]) -> (r: bool)
    ensures
        r == (hashed_key(presented@) == stored_hash@),
{
    let h: [u8; 32] = key_hash(presented);
    let mut diff: u8 = 0;
    let mut i: usize = 0;
    while i < 32
        invariant
            i <= 32,
            h@.len() == 32,
            stored_hash@.len() == 32,
            diff == 0 <==> forall|j: int| 0 <= j < i ==> h@[j] == stored_hash@[j],
        decreases 32 - i,
    {
        let a: u8 = h[i];
        let b: u8 = stored_hash[i];
        let d: u8 = diff;
        assert((d | (a ^ b)) == 0 <==> (d == 0 && a == b)) by (bit_vector);
        diff = d | (a ^ b);
        i = i + 1;
    }
    proof {
        if diff == 0 {
            assert(h@ =~= stored_hash@);
        }
    }
    diff == 0
}

/// The name of a segment says what it is for and under which number: a connector's by its nonce,
/// a channel's and a function's by their ids. Two names are the same only for one purpose and one
/// number.
pub proof fn law_segments_by_number(
    nonce: u64,
    channel_id: u64,
    fn_id: u64,
    other: u64,
    reply: String,
    arena: String,
    requests: String,
    again: String,
)
    requires
        call_ensures(client_segment, (nonce,), reply),
        call_ensures(channel_arena, (channel_id,), arena),
        call_ensures(function_arena, (fn_id,), requests),
        call_ensures(channel_arena, (other,), again),
    ensures
        reply@ == "/impulse-ring.cli."@ + text::decimal(nonce as nat) + ".v1"@,
        arena@ == "/impulse-ring.arena."@ + text::decimal(channel_id as nat) + ".v1"@,
        requests@ == "/impulse-ring.fn."@ + text::decimal(fn_id as nat) + ".v1"@,
        reply@ != arena@ && reply@ != requests@ && arena@ != requests@,
        arena@ == again@ <==> channel_id == other,
        reply@ != CONTROL_SEGMENT@ && arena@ != CONTROL_SEGMENT@ && requests@ != CONTROL_SEGMENT@,
{
    reveal_strlit("/impulse-ring.cli.");
    reveal_strlit("/impulse-ring.arena.");
    reveal_strlit("/impulse-ring.fn.");
    law_segment_names_differ(
        "/impulse-ring.cli."@,
        nonce as nat,
        "/impulse-ring.arena."@,
        channel_id as nat,
    );
    law_segment_names_differ(
        "/impulse-ring.cli."@,
        nonce as nat,
        "/impulse-ring.fn."@,
        fn_id as nat,
    );
    law_segment_names_differ(
        "/impulse-ring.arena."@,
        channel_id as nat,
        "/impulse-ring.fn."@,
        fn_id as nat,
    );
    law_segment_names_differ(
        "/impulse-ring.fn."@,
        fn_id as nat,
        "/impulse-ring.arena."@,
        other as nat,
    );
    law_segment_names_differ(
        "/impulse-ring.arena."@,
        channel_id as nat,
        "/impulse-ring.arena."@,
        other as nat,
    );
}

/// A key is what was stored exactly where its hash is the stored one: the owner of a key is known
/// by it, and the hash is that of the whole key behind the salt.
pub proof fn law_key_is_known_by_its_hash(
    key: &str,
    hash: [u8; 32],
    presented: &str,
    other: [u8; 32],
    stored: [u8; 32],
    own: bool,
    matches: bool,
)
    requires
        call_ensures(key_hash, (key,), hash),
        call_ensures(key_hash, (presented,), other),
        call_ensures(key_matches, (key, &hash), own),
        call_ensures(key_matches, (presented, &stored), matches),
    ensures
        own,
        matches <==> other@ == stored@,
        presented@ == key@ ==> other@ == hash@,
        hash@ == sha256(
            vstd::utf8::encode_utf8("impulse-ring/key/v1:"@) + vstd::utf8::encode_utf8(key@),
        ),
{
}

/// The number of eight drawn bytes has each of them in it, the low byte first, and there is none
/// where nothing was drawn.
pub proof fn law_drawn_number(b: Vec<u8>, r: Option<u64>, x: u64)
    requires
        b@.len() == 8,
        call_ensures(number_drawn, (Ok::<Vec<u8>, getrandom::Error>(b),), r),
        call_ensures(u64_of_bytes, (&b,), x),
    ensures
        r == Some(x),
        x == b@[0] + 0x100 * b@[1] + 0x1_0000 * b@[2] + 0x100_0000 * b@[3] + 0x1_0000_0000 * b@[4]
            + 0x100_0000_0000 * b@[5] + 0x1_0000_0000_0000 * b@[6] + 0x100_0000_0000_0000 * b@[7],
{
    bytes::law_little_endian(b@);
}

} // verus!
