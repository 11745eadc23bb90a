//! Text forms of numbers and IP addresses, as the firewall tools read them.
use vstd::prelude::*;
use crate::agent::model::IpAddress;

verus! {

/// The character of a digit below 16 (lowercase hexadecimal).
pub open spec fn digit_char(d: nat) -> char {
    if d < 10 {
        ((48 + d) as u8) as char
    } else {
        ((87 + d) as u8) as char
    }
}

/// `n` written in base `base` (10 or 16) without leading zeros; `0` for zero.
pub open spec fn radix_text(n: nat, base: nat) -> Seq<char>
    recommends
        base == 10 || base == 16,
    decreases n,
{
    if base < 2 || n < base {
        seq![digit_char(n)]
    } else {
        proof {
            assert(n / base < n) by (nonlinear_arith)
                requires
                    base >= 2,
                    n >= base,
            ;
        }
        radix_text(n / base, base) + seq![digit_char(n % base)]
    }
}

fn digit(d: u64) -> (r: char)
    requires
        d < 16,
    ensures
        r == digit_char(d as nat),
{
    if d < 10 {
        ((48 + d) as u8) as char
    } else {
        ((87 + d) as u8) as char
    }
}

/// Appends `n` written in base `base` (10 or 16).
pub fn push_radix(out: &mut Vec<char>, n: u64, base: u64)
    requires
        base == 10 || base == 16,
    ensures
        final(out)@ == old(out)@ + radix_text(n as nat, base as nat),
    decreases n,
{
    if n < base {
        out.push(digit(n));
        assert(final(out)@ =~= old(out)@ + radix_text(n as nat, base as nat));
    } else {
        push_radix(out, n / base, base);
        out.push(digit(n % base));
        assert(final(out)@ =~= old(out)@ + radix_text(n as nat, base as nat));
    }
}

/// Octet `k` (0 is the most significant) of an IPv4 address.
pub open spec fn octet(v: u32, k: int) -> nat {
    ((v as int / pow256(3 - k)) % 256) as nat
}

/// 256 to the power `e`.
pub open spec fn pow256(e: int) -> int
    decreases e,
{
    if e <= 0 {
        1
    } else {
        256 * pow256(e - 1)
    }
}

/// Dotted-decimal form of an IPv4 address.
pub open spec fn ipv4_text(v: u32) -> Seq<char> {
    radix_text(octet(v, 0), 10) + seq!['.'] + radix_text(octet(v, 1), 10) + seq!['.'] + radix_text(
        octet(v, 2),
        10,
    ) + seq!['.'] + radix_text(octet(v, 3), 10)
}

/// Appends the dotted-decimal form of an IPv4 address.
pub fn push_ipv4(out: &mut Vec<char>, v: u32)
    ensures
        final(out)@ == old(out)@ + ipv4_text(v),
{
    reveal_with_fuel(pow256, 4);
    let ghost start = out@;
    push_radix(out, ((v / 0x100_0000) % 256) as u64, 10);
    out.push('.');
    push_radix(out, ((v / 0x1_0000) % 256) as u64, 10);
    out.push('.');
    push_radix(out, ((v / 0x100) % 256) as u64, 10);
    out.push('.');
    push_radix(out, (v % 256) as u64, 10);
    assert(out@ =~= start + ipv4_text(v));
}

/// 65536 to the power `e`.
pub open spec fn pow65536(e: int) -> int
    decreases e,
{
    if e <= 0 {
        1
    } else {
        65536 * pow65536(e - 1)
    }
}

/// The eight 16-bit groups of an IPv6 address, most significant first.
pub open spec fn segments(v: u128) -> Seq<nat> {
    Seq::new(8, |k: int| ((v as int / pow65536(7 - k)) % 65536) as nat)
}

/// Number of zero groups starting at position `j`.
pub open spec fn zero_run(segs: Seq<nat>, j: int) -> nat
    decreases 8 - j,
{
    if j < 0 || j >= 8 || j >= segs.len() || segs[j] != 0 {
        0
    } else {
        1 + zero_run(segs, j + 1)
    }
}

/// Length of the longest run of zero groups.
pub open spec fn longest_zero_run(segs: Seq<nat>) -> nat {
    let runs = Seq::new(8, |j: int| zero_run(segs, j));
    runs.fold_left(0nat, |m: nat, x: nat| if x > m {
        x
    } else {
        m
    })
}

/// `start` is the first position where a zero run of length `len` begins.
pub open spec fn is_first_run(segs: Seq<nat>, start: int, len: nat) -> bool {
    &&& 0 <= start < 8
    &&& zero_run(segs, start) == len
    &&& forall|j: int| 0 <= j < start ==> zero_run(segs, j) < len
}

/// Groups written in lowercase hexadecimal, separated by colons.
pub open spec fn groups_text(segs: Seq<nat>) -> Seq<char>
    decreases segs.len(),
{
    if segs.len() == 0 {
        Seq::empty()
    } else if segs.len() == 1 {
        radix_text(segs[0], 16)
    } else {
        groups_text(segs.drop_last()) + seq![':'] + radix_text(segs.last(), 16)
    }
}

/// Text form of an IPv6 address (RFC 5952): IPv4-mapped addresses as
/// `::ffff:` and dotted decimal; otherwise hexadecimal groups with the first
/// longest run of two or more zero groups written as `::`.
pub open spec fn ipv6_text(v: u128) -> Seq<char> {
    let segs = segments(v);
    if v as int / pow65536(2) == 0xffff {
        "::ffff:"@ + ipv4_text((v as int % pow65536(2)) as u32)
    } else {
        let len = longest_zero_run(segs);
        if len > 1 {
            let start = choose|s: int| is_first_run(segs, s, len);
            groups_text(segs.take(start)) + "::"@ + groups_text(segs.skip(start + len))
        } else {
            groups_text(segs)
        }
    }
}

fn push_groups(out: &mut Vec<char>, segs: &Vec<u64>, from: usize, to: usize)
    requires
        from <= to <= segs@.len(),
        forall|k: int| 0 <= k < segs@.len() ==> segs@[k] < 65536,
    ensures
        final(out)@ == old(out)@ + groups_text(
            segs@.subrange(from as int, to as int).map_values(|x: u64| x as nat),
        ),
{
    let ghost start = out@;
    let mut i: usize = from;
    while i < to
        invariant
            from <= i <= to,
            to <= segs@.len(),
            out@ == start + groups_text(
                segs@.subrange(from as int, i as int).map_values(|x: u64| x as nat),
            ),
        decreases to - i,
    {
        let ghost prev = segs@.subrange(from as int, i as int).map_values(|x: u64| x as nat);
        let ghost next = segs@.subrange(from as int, i + 1).map_values(|x: u64| x as nat);
        assert(next.drop_last() =~= prev);
        if i > from {
            out.push(':');
        }
        push_radix(out, segs[i], 16);
        i = i + 1;
        assert(out@ =~= start + groups_text(next));
    }
}

proof fn lemma_fold_max(runs: Seq<nat>, n: int)
    requires
        0 <= n <= runs.len(),
    ensures
        forall|j: int|
            0 <= j < n ==> runs[j] <= runs.take(n).fold_left(
                0nat,
                |m: nat, x: nat| if x > m {
                    x
                } else {
                    m
                },
            ),
        n == 0 || exists|j: int|
            0 <= j < n && runs[j] == runs.take(n).fold_left(
                0nat,
                |m: nat, x: nat| if x > m {
                    x
                } else {
                    m
                },
            ),
        n == 0 ==> runs.take(n).fold_left(
            0nat,
            |m: nat, x: nat| if x > m {
                x
            } else {
                m
            },
        ) == 0,
    decreases n,
{
    let f = |m: nat, x: nat| if x > m {
        x
    } else {
        m
    };
    if n > 0 {
        lemma_fold_max(runs, n - 1);
        assert(runs.take(n).drop_last() =~= runs.take(n - 1));
        let prev = runs.take(n - 1).fold_left(0nat, f);
        assert(runs.take(n).fold_left(0nat, f) == f(prev, runs[n - 1]));
        if n - 1 > 0 {
            let j0 = choose|j: int| 0 <= j < n - 1 && runs[j] == prev;
            assert(0 <= j0 < n && runs[j0] == prev);
        }
    } else {
        assert(runs.take(0) =~= Seq::<nat>::empty());
    }
}

/// Appends the text form of an IPv6 address.
pub fn push_ipv6(out: &mut Vec<char>, v: u128)
    ensures
        final(out)@ == old(out)@ + ipv6_text(v),
{
    reveal_with_fuel(pow65536, 8);
    let ghost start = out@;
    let ghost segs_spec = segments(v);
    if v / 0x1_0000_0000 == 0xffff {
        out.push(':');
        out.push(':');
        out.push('f');
        out.push('f');
        out.push('f');
        out.push('f');
        out.push(':');
        push_ipv4(out, (v % 0x1_0000_0000) as u32);
        proof {
            reveal_strlit("::ffff:");
        }
        assert(out@ =~= start + ipv6_text(v));
        return;
    }
    let mut segs: Vec<u64> = Vec::new();
    let mut k: usize = 0;
    while k < 8
        invariant
            k <= 8,
            segs@.len() == k,
            segs_spec == segments(v),
            forall|j: int| 0 <= j < k ==> segs@[j] as nat == segs_spec[j],
            forall|j: int| 0 <= j < k ==> segs@[j] < 65536,
        decreases 8 - k,
    {
        let shift: u128 = if k == 0 {
            0x1_0000_0000_0000_0000_0000_0000_0000
        } else if k == 1 {
            0x1_0000_0000_0000_0000_0000_0000
        } else if k == 2 {
            0x1_0000_0000_0000_0000_0000
        } else if k == 3 {
            0x1_0000_0000_0000_0000
        } else if k == 4 {
            0x1_0000_0000_0000
        } else if k == 5 {
            0x1_0000_0000
        } else if k == 6 {
            0x1_0000
        } else {
            1
        };
        proof {
            reveal_with_fuel(pow65536, 8);
        }
        assert(shift == pow65536(7 - k));
        let group: u128 = (v / shift) % 65536;
        assert(group < 65536);
        assert(segs_spec[k as int] == group as nat);
        segs.push(group as u64);
        assert(segs@[k as int] as nat == segs_spec[k as int]);
        k = k + 1;
    }
    assert(segs@.map_values(|x: u64| x as nat) =~= segs_spec);
    // Zero-run lengths from every position, computed from the end.
    let mut runs: Vec<u64> = vec![0, 0, 0, 0, 0, 0, 0, 0];
    let mut j: usize = 8;
    while j > 0
        invariant
            j <= 8,
            runs@.len() == 8,
            segs@.len() == 8,
            segs@.map_values(|x: u64| x as nat) == segs_spec,
            forall|m: int| j <= m < 8 ==> runs@[m] as nat == zero_run(segs_spec, m),
            forall|m: int| j <= m < 8 ==> runs@[m] <= 8 - m,
            segs_spec.len() == 8,
            forall|k: int| 0 <= k < 8 ==> segs@[k] < 65536,
        decreases j,
    {
        j = j - 1;
        assert(segs_spec[j as int] == segs@[j as int] as nat);
        assert(zero_run(segs_spec, 8) == 0);
        if j < 7 {
            assert(runs@[j + 1] as nat == zero_run(segs_spec, j + 1));
        }
        let value: u64 = if segs[j] == 0 {
            if j == 7 {
                1
            } else {
                runs[j + 1] + 1
            }
        } else {
            0
        };
        assert(value as nat == zero_run(segs_spec, j as int));
        runs.set(j, value);
    }
    let mut best: u64 = 0;
    let mut best_start: usize = 0;
    let mut m: usize = 0;
    while m < 8
        invariant
            m <= 8,
            runs@.len() == 8,
            segs@.len() == 8,
            forall|k: int| 0 <= k < 8 ==> segs@[k] < 65536,
            forall|q: int| 0 <= q < 8 ==> runs@[q] as nat == zero_run(segs_spec, q),
            forall|q: int| 0 <= q < m ==> runs@[q] <= best,
            best > 0 ==> best_start < m && runs@[best_start as int] == best && forall|q: int|
                0 <= q < best_start ==> runs@[q] < best,
            best == 0 ==> forall|q: int| 0 <= q < m ==> runs@[q] == 0,
        decreases 8 - m,
    {
        if runs[m] > best {
            best = runs[m];
            best_start = m;
        }
        m = m + 1;
    }
    proof {
        let runs_spec = Seq::new(8, |q: int| zero_run(segs_spec, q));
        lemma_fold_max(runs_spec, 8);
        assert(runs_spec.take(8) =~= runs_spec);
        let l = longest_zero_run(segs_spec);
        assert forall|q: int| 0 <= q < 8 implies runs_spec[q] <= best by {}
        let w = choose|q: int| 0 <= q < 8 && runs_spec[q] == l;
        assert(runs_spec[w] == runs@[w]);
        assert(l <= best);
        if best > 0 {
            assert(runs_spec[best_start as int] == best);
        }
        assert(best == 0 || best <= l);
        assert(best == l);
    }
    if best > 1 {
        proof {
            let l = longest_zero_run(segs_spec);
            assert(is_first_run(segs_spec, best_start as int, l));
            let s = choose|s: int| is_first_run(segs_spec, s, l);
            if s < best_start {
                assert(zero_run(segs_spec, s) < l);
            } else if s > best_start {
                assert(zero_run(segs_spec, best_start as int) < l);
            }
            assert(zero_run(segs_spec, best_start as int) <= 8 - best_start);
        }
        push_groups(out, &segs, 0, best_start);
        out.push(':');
        out.push(':');
        push_groups(out, &segs, best_start + best as usize, 8);
        proof {
            reveal_strlit("::");
            assert(segs@.subrange(0, best_start as int).map_values(|x: u64| x as nat)
                =~= segs_spec.take(best_start as int));
            assert(segs@.subrange(best_start + best, 8).map_values(|x: u64| x as nat)
                =~= segs_spec.skip(best_start + best));
        }
        assert(out@ =~= start + ipv6_text(v));
    } else {
        push_groups(out, &segs, 0, 8);
        assert(segs@.subrange(0, 8) =~= segs@);
        assert(out@ =~= start + ipv6_text(v));
    }
}

/// Text form of an IP address.
pub open spec fn ip_text(ip: IpAddress) -> Seq<char> {
    match ip {
        IpAddress::V4(v) => ipv4_text(v),
        IpAddress::V6(v) => ipv6_text(v),
    }
}

/// Appends the text form of an IP address.
pub fn push_ip(out: &mut Vec<char>, ip: IpAddress)
    ensures
        final(out)@ == old(out)@ + ip_text(ip),
{
    match ip {
        IpAddress::V4(v) => push_ipv4(out, v),
        IpAddress::V6(v) => push_ipv6(out, v),
    }
}

} // verus!
