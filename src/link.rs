use vstd::prelude::*;

use crate::chars::push_char;

verus! {

/// The character of decimal digit `d`.
pub open spec fn digit_char(d: nat) -> char
    recommends
        d < 10,
{
    ((d + 48) as u8) as char
}

/// The decimal notation of `n`, most significant digit first, no leading zero.
pub open spec fn decimal(n: nat) -> Seq<char>
    decreases n,
{
    if n < 10 {
        seq![digit_char(n)]
    } else {
        decimal(n / 10).push(digit_char(n % 10))
    }
}

/// The part of every deep link into video `id` that comes before the offset.
pub open spec fn link_prefix(id: Seq<char>) -> Seq<char> {
    "https://www.youtube.com/watch?v="@ + id + "&t="@
}

/// The deep link to second `t` of video `id`.
pub open spec fn link_of(id: Seq<char>, t: nat) -> Seq<char> {
    link_prefix(id) + decimal(t)
}

/// Appends the decimal notation of `n` to `out`.
fn push_decimal(out: &mut String, n: u64)
    ensures
        final(out)@ == old(out)@ + decimal(n as nat),
    decreases n,
{
    if n >= 10 {
        push_decimal(out, n / 10);
    }
    let d: u8 = (n % 10) as u8;
    push_char(out, (d + 48) as char);
    assert(decimal(n as nat) == if n < 10 { seq![digit_char(n as nat)] } else {
        decimal((n / 10) as nat).push(digit_char((n % 10) as nat))
    });
}

/// The link that opens video `video_id` at `total_seconds`.
pub fn build_link(video_id: &str, total_seconds: u64) -> (r: String)
    ensures
        r@ == link_of(video_id@, total_seconds as nat),
{
    let mut r = String::new();
    r.append("https://www.youtube.com/watch?v=");
    r.append(video_id);
    r.append("&t=");
    push_decimal(&mut r, total_seconds);
    r
}

proof fn lemma_decimal_len(n: nat)
    ensures
        decimal(n).len() >= 1,
        n < 10 <==> decimal(n).len() == 1,
    decreases n,
{
    if n >= 10 {
        lemma_decimal_len(n / 10);
    }
}

proof fn lemma_decimal_injective(n: nat, m: nat)
    requires
        decimal(n) == decimal(m),
    ensures
        n == m,
    decreases n,
{
    lemma_decimal_len(n);
    lemma_decimal_len(m);
    if n < 10 {
        assert(decimal(n) == seq![digit_char(n)]);
        assert(decimal(m) == seq![digit_char(m)]);
        assert(decimal(n)[0] == digit_char(n));
        assert(decimal(m)[0] == digit_char(m));
        assert((((n + 48) as u8) as char) as u32 == n + 48);
        assert((((m + 48) as u8) as char) as u32 == m + 48);
    } else {
        let a = decimal(n / 10);
        let b = decimal(m / 10);
        assert(a == decimal(n).drop_last());
        assert(b == decimal(m).drop_last());
        lemma_decimal_injective(n / 10, m / 10);
        assert(decimal(n).last() == digit_char(n % 10));
        assert(decimal(m).last() == digit_char(m % 10));
        assert((((n % 10 + 48) as u8) as char) as u32 == n % 10 + 48);
        assert((((m % 10 + 48) as u8) as char) as u32 == m % 10 + 48);
        assert(n / 10 * 10 + n % 10 == n);
        assert(m / 10 * 10 + m % 10 == m);
    }
}

/// Two links into the same video at different offsets are different, and
/// they agree on everything before the offset: they differ only in the `t`
/// value.
pub proof fn links_differ_only_in_offset(id: Seq<char>, t1: nat, t2: nat)
    requires
        t1 != t2,
    ensures
        link_of(id, t1) != link_of(id, t2),
        link_of(id, t1) == link_prefix(id) + decimal(t1),
        link_of(id, t2) == link_prefix(id) + decimal(t2),
        decimal(t1) != decimal(t2),
{
    if decimal(t1) == decimal(t2) {
        lemma_decimal_injective(t1, t2);
    }
    if link_of(id, t1) == link_of(id, t2) {
        let p = link_prefix(id);
        assert(decimal(t1) == link_of(id, t1).subrange(p.len() as int, link_of(id, t1).len() as int));
        assert(decimal(t2) == link_of(id, t2).subrange(p.len() as int, link_of(id, t2).len() as int));
    }
}

} // verus!
