use vstd::prelude::*;

verus! {

/// A peer address: an IPv4 address held as its four octets.
///
/// The textual form accepted and produced by this library is the canonical
/// dotted-quad notation: four decimal octets without leading zeros, joined
/// by `.` (so `10.0.0.1` is valid, `010.0.0.1` is not).
#[derive(Clone, Copy, PartialEq, Eq, Structural, Debug, Hash)]
pub struct Ip {
    pub a: u8,
    pub b: u8,
    pub c: u8,
    pub d: u8,
}

/// The ASCII byte of one decimal digit.
pub open spec fn digit(n: int) -> u8 {
    (48 + n) as u8
}

pub open spec fn is_digit(b: u8) -> bool {
    48 <= b <= 57
}

/// Canonical decimal text of one octet: one to three digits, no leading zero.
pub open spec fn dec_bytes(n: u8) -> Seq<u8> {
    if n < 10 {
        seq![digit(n as int)]
    } else if n < 100 {
        seq![digit(n as int / 10), digit(n as int % 10)]
    } else {
        seq![digit(n as int / 100), digit((n as int / 10) % 10), digit(n as int % 10)]
    }
}

/// Canonical dotted-quad text of an address; 46 is the ASCII dot.
pub open spec fn ip_bytes(ip: Ip) -> Seq<u8> {
    dec_bytes(ip.a) + seq![46u8] + dec_bytes(ip.b) + seq![46u8] + dec_bytes(ip.c) + seq![46u8]
        + dec_bytes(ip.d)
}

/// Whether a byte string is the canonical text of some address.
pub open spec fn is_ip_text(s: Seq<u8>) -> bool {
    exists|ip: Ip| s == ip_bytes(ip)
}

/// The address a byte string denotes, if it is canonical address text.
pub open spec fn ip_of_bytes(s: Seq<u8>) -> Option<Ip> {
    if is_ip_text(s) {
        Some(choose|ip: Ip| s == ip_bytes(ip))
    } else {
        None
    }
}

/// First index at or after `i` that does not hold a decimal digit.
pub open spec fn digits_end(s: Seq<u8>, i: int) -> int
    decreases s.len() - i,
{
    if i < 0 || i >= s.len() || !is_digit(s[i]) {
        i
    } else {
        digits_end(s, i + 1)
    }
}

/// Value of the decimal digits `s[i..j]`.
pub open spec fn num_val(s: Seq<u8>, i: int, j: int) -> int
    decreases j - i,
{
    if i >= j {
        0
    } else {
        num_val(s, i, j - 1) * 10 + (s[j - 1] - 48)
    }
}

/// The shape a dotted quad must have, before the octet range and leading-zero
/// checks: four groups of one to three digits joined by dots, spanning the
/// whole string, with the group values as read.
pub open spec fn quad_shape(s: Seq<u8>) -> Option<(int, int, int, int)> {
    let e1 = digits_end(s, 0);
    let e2 = digits_end(s, e1 + 1);
    let e3 = digits_end(s, e2 + 1);
    let e4 = digits_end(s, e3 + 1);
    if 1 <= e1 <= 3 && e1 < s.len() && s[e1] == 46 && 1 <= e2 - (e1 + 1) <= 3 && e2 < s.len()
        && s[e2] == 46 && 1 <= e3 - (e2 + 1) <= 3 && e3 < s.len() && s[e3] == 46 && 1 <= e4 - (e3
        + 1) <= 3 && e4 == s.len() {
        Some(
            (
                num_val(s, 0, e1),
                num_val(s, e1 + 1, e2),
                num_val(s, e2 + 1, e3),
                num_val(s, e3 + 1, e4),
            ),
        )
    } else {
        None
    }
}

impl Ip {
    /// The four octets as a tuple, for contracts that compare addresses.
    pub open spec fn octets(self) -> (int, int, int, int) {
        (self.a as int, self.b as int, self.c as int, self.d as int)
    }

    pub fn new(a: u8, b: u8, c: u8, d: u8) -> (r: Ip)
        ensures
            r == (Ip { a, b, c, d }),
    {
        Ip { a, b, c, d }
    }

    /// Canonical dotted-quad text of this address, as bytes.
    pub fn format(&self) -> (r: Vec<u8>)
        ensures
            r@ == ip_bytes(*self),
    {
        let mut out: Vec<u8> = Vec::new();
        push_octet(&mut out, self.a);
        out.push(46);
        push_octet(&mut out, self.b);
        out.push(46);
        push_octet(&mut out, self.c);
        out.push(46);
        push_octet(&mut out, self.d);
        proof {
            assert(out@ =~= ip_bytes(*self));
        }
        out
    }
}

/// Appends the canonical decimal text of one octet.
fn push_octet(out: &mut Vec<u8>, n: u8)
    ensures
        final(out)@ == old(out)@ + dec_bytes(n),
{
    if n >= 100 {
        out.push(48 + n / 100);
        out.push(48 + (n / 10) % 10);
        out.push(48 + n % 10);
    } else if n >= 10 {
        out.push(48 + n / 10);
        out.push(48 + n % 10);
    } else {
        out.push(48 + n);
    }
    proof {
        assert(out@ =~= old(out)@ + dec_bytes(n));
    }
}

/// First index at or after `i` that does not hold a decimal digit.
fn munch_digits(s: &[u8], i: usize) -> (j: usize)
    requires
        i <= s@.len(),
    ensures
        i <= j <= s@.len(),
        j as int == digits_end(s@, i as int),
{
    let mut k = i;
    while k < s.len() && 48 <= s[k] && s[k] <= 57
        invariant
            i <= k <= s@.len(),
            digits_end(s@, i as int) == digits_end(s@, k as int),
        decreases s@.len() - k,
    {
        proof {
            assert(digits_end(s@, k as int) == digits_end(s@, k as int + 1));
        }
        k = k + 1;
    }
    k
}

/// Value of the decimal digits `s[i..j]`, for a group of at most three.
fn group_val(s: &[u8], i: usize, j: usize) -> (v: u16)
    requires
        i <= j <= s@.len(),
        j - i <= 3,
        forall|t: int| i <= t < j ==> is_digit(s@[t]),
    ensures
        v as int == num_val(s@, i as int, j as int),
        v <= 999,
{
    let mut v: u16 = 0;
    let mut k = i;
    while k < j
        invariant
            i <= k <= j <= s@.len(),
            j - i <= 3,
            forall|t: int| i <= t < j ==> is_digit(s@[t]),
            v as int == num_val(s@, i as int, k as int),
            k - i == 0 ==> v == 0,
            k - i == 1 ==> v <= 9,
            k - i == 2 ==> v <= 99,
            k - i == 3 ==> v <= 999,
        decreases j - k,
    {
        v = v * 10 + (s[k] - 48) as u16;
        k = k + 1;
    }
    v
}

fn bytes_eq(a: &[u8], b: &Vec<u8>) -> (r: bool)
    ensures
        r <==> a@ == b@,
{
    if a.len() != b.len() {
        proof {
            assert(a@.len() != b@.len());
        }
        return false;
    }
    let n = a.len();
    let mut k: usize = 0;
    while k < n
        invariant
            0 <= k <= n,
            n == a@.len() == b@.len(),
            forall|t: int| 0 <= t < k ==> a@[t] == b@[t],
        decreases n - k,
    {
        if a[k] != b[k] {
            return false;
        }
        k = k + 1;
    }
    proof {
        assert(a@ =~= b@);
    }
    true
}

/// Parses canonical dotted-quad text; returns `None` on anything else.
pub fn parse_ip(s: &[u8]) -> (r: Option<Ip>)
    ensures
        r == ip_of_bytes(s@),
{
    let n = s.len();
    let e1 = munch_digits(s, 0);
    if !(1 <= e1 && e1 <= 3 && e1 < n && s[e1] == 46) {
        proof {
            lemma_not_canonical(s@);
        }
        return None;
    }
    let e2 = munch_digits(s, e1 + 1);
    if !(1 <= e2 - (e1 + 1) && e2 - (e1 + 1) <= 3 && e2 < n && s[e2] == 46) {
        proof {
            lemma_not_canonical(s@);
        }
        return None;
    }
    let e3 = munch_digits(s, e2 + 1);
    if !(1 <= e3 - (e2 + 1) && e3 - (e2 + 1) <= 3 && e3 < n && s[e3] == 46) {
        proof {
            lemma_not_canonical(s@);
        }
        return None;
    }
    let e4 = munch_digits(s, e3 + 1);
    if !(1 <= e4 - (e3 + 1) && e4 - (e3 + 1) <= 3 && e4 == n) {
        proof {
            lemma_not_canonical(s@);
        }
        return None;
    }
    proof {
        lemma_digit_run(s@, 0, e1 as int);
        lemma_digit_run(s@, e1 as int + 1, e2 as int);
        lemma_digit_run(s@, e2 as int + 1, e3 as int);
        lemma_digit_run(s@, e3 as int + 1, e4 as int);
    }
    let a = group_val(s, 0, e1);
    let b = group_val(s, e1 + 1, e2);
    let c = group_val(s, e2 + 1, e3);
    let d = group_val(s, e3 + 1, e4);
    if a > 255 || b > 255 || c > 255 || d > 255 {
        proof {
            lemma_not_canonical(s@);
        }
        return None;
    }
    let ip = Ip { a: a as u8, b: b as u8, c: c as u8, d: d as u8 };
    let canon = ip.format();
    if bytes_eq(s, &canon) {
        proof {
            assert(is_ip_text(s@));
            let ip2 = choose|p: Ip| s@ == ip_bytes(p);
            lemma_ip_bytes_injective(ip, ip2);
        }
        Some(ip)
    } else {
        proof {
            lemma_not_canonical(s@);
        }
        None
    }
}

/// Everything between `i` and `j` is a digit, and `j` is where the digits end.
proof fn lemma_digit_run(s: Seq<u8>, i: int, j: int)
    requires
        0 <= i <= s.len(),
        j == digits_end(s, i),
    ensures
        i <= j <= s.len(),
        forall|t: int| i <= t < j ==> is_digit(s[t]),
        j == s.len() || !is_digit(s[j]),
    decreases s.len() - i,
{
    if i < s.len() && is_digit(s[i]) {
        lemma_digit_run(s, i + 1, j);
    }
}

/// Converse of `lemma_digit_run`: a digit run ending at a non-digit (or the
/// end) pins `digits_end` down.
proof fn lemma_digits_end_run(s: Seq<u8>, i: int, j: int)
    requires
        0 <= i <= j <= s.len(),
        forall|t: int| i <= t < j ==> is_digit(s[t]),
        j == s.len() || !is_digit(s[j]),
    ensures
        digits_end(s, i) == j,
    decreases j - i,
{
    if i < j {
        lemma_digits_end_run(s, i + 1, j);
    }
}

/// The canonical text of an octet is one to three digits, never starting
/// with a zero that has company.
proof fn lemma_dec_bytes_digits(n: u8)
    ensures
        1 <= dec_bytes(n).len() <= 3,
        forall|t: int| 0 <= t < dec_bytes(n).len() ==> is_digit(dec_bytes(n)[t]),
{
    assert(n as int / 10 <= 25) by (nonlinear_arith)
        requires
            n as int <= 255,
    ;
    assert(n as int / 100 <= 2) by (nonlinear_arith)
        requires
            n as int <= 255,
    ;
    assert(0 <= n as int % 10 < 10) by (nonlinear_arith)
        requires
            n as int >= 0,
    ;
    assert(0 <= (n as int / 10) % 10 < 10) by (nonlinear_arith)
        requires
            n as int >= 0,
    ;
    assert(n as int >= 10 ==> n as int / 10 >= 1) by (nonlinear_arith);
    assert(n as int >= 100 ==> n as int / 100 >= 1) by (nonlinear_arith);
}

/// Reading the canonical digits of `n` back gives `n`.
proof fn lemma_num_val_dec(s: Seq<u8>, i: int, n: u8)
    requires
        0 <= i,
        i + dec_bytes(n).len() <= s.len(),
        s.subrange(i, i + dec_bytes(n).len() as int) == dec_bytes(n),
    ensures
        num_val(s, i, i + dec_bytes(n).len() as int) == n,
{
    let l = dec_bytes(n).len() as int;
    lemma_dec_bytes_digits(n);
    if n < 10 {
        assert(s[i] == s.subrange(i, i + 1)[0]);
        assert(s[i] == digit(n as int));
        assert(num_val(s, i, i + 1) == num_val(s, i, i) * 10 + (s[i] - 48));
        assert(num_val(s, i, i) == 0);
    } else if n < 100 {
        assert(s[i] == s.subrange(i, i + 2)[0]);
        assert(s[i + 1] == s.subrange(i, i + 2)[1]);
        assert(s[i] == digit(n as int / 10));
        assert(s[i + 1] == digit(n as int % 10));
        assert(num_val(s, i, i + 2) == num_val(s, i, i + 1) * 10 + (s[i + 1] - 48));
        assert(num_val(s, i, i + 1) == num_val(s, i, i) * 10 + (s[i] - 48));
        assert(num_val(s, i, i) == 0);
        assert(n as int == (n as int / 10) * 10 + (n as int % 10)) by (nonlinear_arith);
        assert(n as int / 10 <= 9) by (nonlinear_arith)
            requires
                n as int <= 99,
        ;
        assert(0 <= n as int % 10 <= 9) by (nonlinear_arith)
            requires
                n as int >= 0,
        ;
    } else {
        assert(s[i] == s.subrange(i, i + 3)[0]);
        assert(s[i + 1] == s.subrange(i, i + 3)[1]);
        assert(s[i + 2] == s.subrange(i, i + 3)[2]);
        assert(s[i] == digit(n as int / 100));
        assert(s[i + 1] == digit((n as int / 10) % 10));
        assert(s[i + 2] == digit(n as int % 10));
        assert(num_val(s, i, i + 3) == num_val(s, i, i + 2) * 10 + (s[i + 2] - 48));
        assert(num_val(s, i, i + 2) == num_val(s, i, i + 1) * 10 + (s[i + 1] - 48));
        assert(num_val(s, i, i + 1) == num_val(s, i, i) * 10 + (s[i] - 48));
        assert(num_val(s, i, i) == 0);
        assert(n as int / 10 == (n as int / 100) * 10 + ((n as int / 10) % 10)) by (nonlinear_arith)
            requires
                0 <= n as int <= 255,
        ;
        assert(n as int == (n as int / 10) * 10 + (n as int % 10)) by (nonlinear_arith)
            requires
                0 <= n as int <= 255,
        ;
    }
}

/// The canonical text of an address has the quad shape, and the values read
/// from it are its octets.
proof fn lemma_quad_shape_canonical(ip: Ip)
    ensures
        quad_shape(ip_bytes(ip)) == Some(ip.octets()),
{
    let s = ip_bytes(ip);
    let la = dec_bytes(ip.a).len() as int;
    let lb = dec_bytes(ip.b).len() as int;
    let lc = dec_bytes(ip.c).len() as int;
    let ld = dec_bytes(ip.d).len() as int;
    lemma_dec_bytes_digits(ip.a);
    lemma_dec_bytes_digits(ip.b);
    lemma_dec_bytes_digits(ip.c);
    lemma_dec_bytes_digits(ip.d);
    assert(s.len() == la + 1 + lb + 1 + lc + 1 + ld);
    assert(forall|t: int| 0 <= t < la ==> s[t] == dec_bytes(ip.a)[t]);
    assert(s[la] == 46);
    assert(forall|t: int| 0 <= t < lb ==> s[la + 1 + t] == dec_bytes(ip.b)[t]);
    assert(s[la + 1 + lb] == 46);
    assert(forall|t: int| 0 <= t < lc ==> s[la + 1 + lb + 1 + t] == dec_bytes(ip.c)[t]);
    assert(s[la + 1 + lb + 1 + lc] == 46);
    assert(forall|t: int| 0 <= t < ld ==> s[la + 1 + lb + 1 + lc + 1 + t] == dec_bytes(ip.d)[t]);
    lemma_digits_end_run(s, 0, la);
    lemma_digits_end_run(s, la + 1, la + 1 + lb);
    lemma_digits_end_run(s, la + 1 + lb + 1, la + 1 + lb + 1 + lc);
    lemma_digits_end_run(s, la + 1 + lb + 1 + lc + 1, s.len() as int);
    assert(s.subrange(0, la) =~= dec_bytes(ip.a));
    assert(s.subrange(la + 1, la + 1 + lb) =~= dec_bytes(ip.b));
    assert(s.subrange(la + 1 + lb + 1, la + 1 + lb + 1 + lc) =~= dec_bytes(ip.c));
    assert(s.subrange(la + 1 + lb + 1 + lc + 1, s.len() as int) =~= dec_bytes(ip.d));
    lemma_num_val_dec(s, 0, ip.a);
    lemma_num_val_dec(s, la + 1, ip.b);
    lemma_num_val_dec(s, la + 1 + lb + 1, ip.c);
    lemma_num_val_dec(s, la + 1 + lb + 1 + lc + 1, ip.d);
}

/// Two addresses with the same canonical text are the same address.
pub proof fn lemma_ip_bytes_injective(x: Ip, y: Ip)
    requires
        ip_bytes(x) == ip_bytes(y),
    ensures
        x == y,
{
    lemma_quad_shape_canonical(x);
    lemma_quad_shape_canonical(y);
}

/// If the quad shape fails, or an octet is out of range, or the text is not
/// the canonical form of the quad it shows, then no address has this text.
proof fn lemma_not_canonical(s: Seq<u8>)
    requires
        match quad_shape(s) {
            None => true,
            Some((a, b, c, d)) => !(0 <= a <= 255 && 0 <= b <= 255 && 0 <= c <= 255 && 0 <= d
                <= 255) || s != ip_bytes(Ip { a: a as u8, b: b as u8, c: c as u8, d: d as u8 }),
        },
    ensures
        !is_ip_text(s),
{
    if is_ip_text(s) {
        let ip = choose|p: Ip| s == ip_bytes(p);
        lemma_quad_shape_canonical(ip);
    }
}

/// Canonical address text holds only digits and dots (bytes 46 through 57),
/// so it never needs quoting or escaping.
pub proof fn lemma_ip_bytes_range(ip: Ip)
    ensures
        forall|t: int| 0 <= t < ip_bytes(ip).len() ==> 46 <= #[trigger] ip_bytes(ip)[t] <= 57,
{
    lemma_dec_bytes_digits(ip.a);
    lemma_dec_bytes_digits(ip.b);
    lemma_dec_bytes_digits(ip.c);
    lemma_dec_bytes_digits(ip.d);
    let s = ip_bytes(ip);
    let la = dec_bytes(ip.a).len() as int;
    let lb = dec_bytes(ip.b).len() as int;
    let lc = dec_bytes(ip.c).len() as int;
    let ld = dec_bytes(ip.d).len() as int;
    assert forall|t: int| 0 <= t < s.len() implies 46 <= #[trigger] s[t] <= 57 by {
        if t < la {
            assert(s[t] == dec_bytes(ip.a)[t]);
            assert(is_digit(s[t]));
        } else if t == la {
            assert(s[t] == 46);
        } else if t < la + 1 + lb {
            assert(s[t] == dec_bytes(ip.b)[t - (la + 1)]);
            assert(is_digit(s[t]));
        } else if t == la + 1 + lb {
            assert(s[t] == 46);
        } else if t < la + 1 + lb + 1 + lc {
            assert(s[t] == dec_bytes(ip.c)[t - (la + 1 + lb + 1)]);
            assert(is_digit(s[t]));
        } else if t == la + 1 + lb + 1 + lc {
            assert(s[t] == 46);
        } else {
            assert(s[t] == dec_bytes(ip.d)[t - (la + 1 + lb + 1 + lc + 1)]);
            assert(is_digit(s[t]));
        }
    }
}

/// Formatting an address and parsing the text back yields the address.
pub proof fn lemma_ip_round_trip(ip: Ip)
    ensures
        ip_of_bytes(ip_bytes(ip)) == Some(ip),
{
    assert(is_ip_text(ip_bytes(ip)));
    let ip2 = choose|p: Ip| ip_bytes(ip) == ip_bytes(p);
    lemma_ip_bytes_injective(ip, ip2);
}

} // verus!
