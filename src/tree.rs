//! JSON trees as the diff engine and the body codec see them.
use vstd::prelude::*;
use vstd::utf8::*;

verus! {

/// A JSON number as a decimal: `mantissa * 10^exponent`, negated when
/// `positive` is false.
#[derive(Clone, Copy, Debug, PartialEq, Eq, Structural)]
pub struct JsonNumber {
    pub positive: bool,
    pub mantissa: u64,
    pub exponent: i16,
}

/// Powers of ten.
pub open spec fn pow10(k: nat) -> int
    decreases k,
{
    if k == 0 {
        1
    } else {
        10 * pow10((k - 1) as nat)
    }
}

proof fn lemma_pow10_step(k: nat)
    ensures
        pow10(k) >= 1,
        pow10(k + 1) == 10 * pow10(k),
    decreases k,
{
    if k > 0 {
        lemma_pow10_step((k - 1) as nat);
    }
}

pub proof fn lemma_pow10_large(k: nat)
    ensures
        pow10(k) >= 1,
        k >= 20 ==> pow10(k) > u64::MAX,
    decreases k,
{
    if k > 0 {
        lemma_pow10_large((k - 1) as nat);
        lemma_pow10_step((k - 1) as nat);
        if k == 20 {
            reveal_with_fuel(pow10, 21);
            assert(pow10(20) == 100000000000000000000int);
        }
    }
}

/// `m`, negated when `positive` is false.
pub open spec fn signed(positive: bool, m: int) -> int {
    if positive {
        m
    } else {
        -m
    }
}

pub open spec fn min_int(a: int, b: int) -> int {
    if a <= b {
        a
    } else {
        b
    }
}

pub open spec fn abs_int(a: int) -> int {
    if a < 0 {
        -a
    } else {
        a
    }
}

/// The value of `n` in units of `10^e0`; `e0` is at most its exponent.
pub open spec fn units(n: JsonNumber, e0: int) -> int {
    signed(n.positive, n.mantissa * pow10((n.exponent - e0) as nat))
}

/// Two numbers differ by less than `10^-8`. Both are written in units of
/// the smallest of their exponents and `-8`, where the bound is `10^t`.
pub open spec fn close_numbers(a: JsonNumber, b: JsonNumber) -> bool {
    let e0 = min_int(min_int(a.exponent as int, b.exponent as int), -8);
    abs_int(units(a, e0) - units(b, e0)) < pow10((-8 - e0) as nat)
}

pub proof fn lemma_pow10_add(p: nat, q: nat)
    ensures
        pow10(p + q) == pow10(p) * pow10(q),
    decreases p,
{
    if p > 0 {
        lemma_pow10_add((p - 1) as nat, q);
        assert(pow10(p + q) == 10 * pow10((p - 1 + q) as nat));
        assert(10 * (pow10((p - 1) as nat) * pow10(q)) == (10 * pow10((p - 1) as nat)) * pow10(q))
            by (nonlinear_arith);
    }
}

pub proof fn lemma_pow10_mono(p: nat, q: nat)
    requires
        p <= q,
    ensures
        pow10(p) <= pow10(q),
        pow10(p) >= 1,
{
    lemma_pow10_add(p, (q - p) as nat);
    lemma_pow10_large(p);
    lemma_pow10_large((q - p) as nat);
    assert(pow10(p) * pow10((q - p) as nat) >= pow10(p)) by (nonlinear_arith)
        requires
            pow10((q - p) as nat) >= 1,
            pow10(p) >= 1,
    ;
}

fn pow10_u128(k: u32) -> (r: u128)
    requires
        k <= 38,
    ensures
        r == pow10(k as nat),
    decreases k,
{
    if k == 0 {
        1
    } else {
        let p = pow10_u128(k - 1);
        proof {
            lemma_pow10_mono((k - 1) as nat, 37);
            reveal_with_fuel(pow10, 38);
            assert(pow10(37) == 10000000000000000000000000000000000000int);
        }
        10 * p
    }
}

/// `10^c * d < 10^t` with `c >= t` holds only for `d == 0`.
proof fn lemma_scaled_below(c: nat, t: nat, d: int)
    requires
        c >= t,
        d >= 0,
    ensures
        (pow10(c) * d < pow10(t)) <==> d == 0,
{
    lemma_pow10_mono(t, c);
    if d >= 1 {
        assert(pow10(c) * d >= pow10(c)) by (nonlinear_arith)
            requires
                d >= 1,
                pow10(c) >= 1,
        ;
    }
}

/// With `m < 10^20 <= P`: `M*P - m < Q*P` is `M <= Q` where `m > 0`, else
/// `M < Q`; and `M*P + m < Q*P` is `M < Q`.
proof fn lemma_window(big_m: int, m: int, p: int, q: int)
    requires
        0 <= m < p,
        big_m >= 0,
        q >= 1,
    ensures
        (big_m * p - m < q * p) <==> (if m > 0 {
            big_m <= q
        } else {
            big_m < q
        }),
        (big_m * p + m < q * p) <==> big_m < q,
{
    if big_m <= q - 1 {
        assert(big_m * p <= (q - 1) * p) by (nonlinear_arith)
            requires
                big_m <= q - 1,
                p >= 0,
        ;
        assert((q - 1) * p == q * p - p) by (nonlinear_arith);
    } else if big_m == q {
    } else {
        assert(big_m * p >= (q + 1) * p) by (nonlinear_arith)
            requires
                big_m >= q + 1,
                p >= 0,
        ;
        assert((q + 1) * p == q * p + p) by (nonlinear_arith);
    }
}

fn decide_small(pa: bool, ma: u64, da: u32, pb: bool, mb: u64, t: u32, exact: bool) -> (r: bool)
    requires
        da <= 19 || ma == 0,
    ensures
        ({
            let d = abs_int(signed(pa, ma * pow10(da as nat)) - signed(pb, mb as int));
            r == if exact {
                d == 0
            } else {
                d < pow10(t as nat)
            }
        }),
{
    let ghost big_p = pow10(da as nat);
    let ghost d = abs_int(signed(pa, ma * big_p) - signed(pb, mb as int));
    proof {
        lemma_pow10_large(20);
        lemma_pow10_mono(0, da as nat);
        lemma_pow10_large(t as nat);
    }
    let a: u128 = if ma == 0 {
        0
    } else {
        let p = pow10_u128(da);
        proof {
            lemma_pow10_mono(da as nat, 19);
            reveal_with_fuel(pow10, 20);
            assert(ma as int * p as int <= 18446744073709551615int * 10000000000000000000int)
                by (nonlinear_arith)
                requires
                    ma <= 18446744073709551615int,
                    p <= 10000000000000000000int,
                    p >= 1,
            ;
        }
        ma as u128 * p
    };
    assert(a == ma * big_p) by (nonlinear_arith)
        requires
            ma == 0 ==> a == 0,
            ma != 0 ==> a == ma * big_p,
    ;
    let diff: u128 = if pa == pb {
        if a >= mb as u128 {
            a - mb as u128
        } else {
            mb as u128 - a
        }
    } else {
        a + mb as u128
    };
    assert(diff == d);
    if exact {
        diff == 0
    } else if t <= 38 {
        diff < pow10_u128(t)
    } else {
        proof {
            lemma_pow10_mono(39, t as nat);
            reveal_with_fuel(pow10, 40);
        }
        true
    }
}

#[verifier::rlimit(50)]
fn decide_large(pa: bool, ma: u64, da: u32, pb: bool, mb: u64, t: u32, exact: bool) -> (r: bool)
    requires
        da >= 20,
        ma >= 1,
    ensures
        ({
            let d = abs_int(signed(pa, ma * pow10(da as nat)) - signed(pb, mb as int));
            r == if exact {
                d == 0
            } else {
                d < pow10(t as nat)
            }
        }),
{
    let ghost big_p = pow10(da as nat);
    let ghost d = abs_int(signed(pa, ma * big_p) - signed(pb, mb as int));
    proof {
        lemma_pow10_large(20);
        lemma_pow10_mono(0, da as nat);
        lemma_pow10_large(t as nat);
    }
    // ma >= 1 and 10^da >= 10^20 > mb
    proof {
        lemma_pow10_mono(20, da as nat);
        assert(ma * big_p >= big_p) by (nonlinear_arith)
            requires
                ma >= 1,
                big_p >= 1,
        ;
    }
    if exact {
        return false;
    }
    if t < da {
        proof {
            lemma_pow10_add(t as nat, (da - t) as nat);
            lemma_pow10_mono(1, (da - t) as nat);
            reveal_with_fuel(pow10, 2);
            assert(big_p >= 10 * pow10(t as nat)) by (nonlinear_arith)
                requires
                    big_p == pow10(t as nat) * pow10((da - t) as nat),
                    pow10((da - t) as nat) >= 10,
                    pow10(t as nat) >= 1,
            ;
            lemma_pow10_mono(19, t as nat + 19);
            lemma_pow10_large(t as nat);
        }
        assert(d >= big_p - mb);
        proof {
            reveal_with_fuel(pow10, 21);
            assert(big_p - mb >= pow10(t as nat)) by (nonlinear_arith)
                requires
                    big_p >= 10 * pow10(t as nat),
                    big_p >= 100000000000000000000int,
                    mb <= 18446744073709551615int,
                    pow10(t as nat) >= 1,
            ;
        }
        return false;
    }
    let u = t - da;
    proof {
        lemma_pow10_add(u as nat, da as nat);
        assert(pow10(t as nat) == pow10(u as nat) * big_p);
    }
    if u >= 20 {
        proof {
            lemma_pow10_mono(20, u as nat);
            reveal_with_fuel(pow10, 21);
            assert(ma * big_p + mb < pow10(u as nat) * big_p) by (nonlinear_arith)
                requires
                    ma <= 18446744073709551615int,
                    pow10(u as nat) >= 100000000000000000000int,
                    big_p > mb,
                    mb >= 0,
            ;
        }
        return true;
    }
    let q = pow10_u128(u);
    proof {
        lemma_pow10_large(u as nat);
        lemma_window(ma as int, mb as int, big_p, q as int);
        assert(ma as int * big_p == big_p * ma) by (nonlinear_arith);
    }
    if pa == pb {
        if mb > 0 {
            ma as u128 <= q
        } else {
            (ma as u128) < q
        }
    } else {
        (ma as u128) < q
    }
}

/// Whether `a` and `b`, the numbers `ma * 10^da` and `mb` with the given
/// signs, differ by less than `10^t`, or, with `exact`, not at all.
fn decide_close(pa: bool, ma: u64, da: u32, pb: bool, mb: u64, t: u32, exact: bool) -> (r: bool)
    ensures
        ({
            let d = abs_int(signed(pa, ma * pow10(da as nat)) - signed(pb, mb as int));
            r == if exact {
                d == 0
            } else {
                d < pow10(t as nat)
            }
        }),
{
    if da <= 19 || ma == 0 {
        decide_small(pa, ma, da, pb, mb, t, exact)
    } else {
        decide_large(pa, ma, da, pb, mb, t, exact)
    }
}

impl JsonNumber {
    /// Whether the two numbers differ by less than `10^-8`.
    pub fn close_to(&self, other: &JsonNumber) -> (r: bool)
        ensures
            r == close_numbers(*self, *other),
    {
        let ea = self.exponent as i32;
        let eb = other.exponent as i32;
        let e0: i32 = if ea <= eb { ea } else { eb };
        let e0: i32 = if e0 <= -8 { e0 } else { -8 };
        let ka = (ea - e0) as u32;
        let kb = (eb - e0) as u32;
        let t = (-8 - e0) as u32;
        let c = if ka <= kb { ka } else { kb };
        let exact = c >= t;
        let ghost x = units(*self, e0 as int);
        let ghost y = units(*other, e0 as int);
        proof {
            lemma_pow10_add(c as nat, (ka - c) as nat);
            lemma_pow10_add(c as nat, (kb - c) as nat);
            let xa = signed(self.positive, self.mantissa * pow10((ka - c) as nat));
            let yb = signed(other.positive, other.mantissa * pow10((kb - c) as nat));
            assert(x == pow10(c as nat) * xa) by (nonlinear_arith)
                requires
                    x == signed(self.positive, self.mantissa * pow10(ka as nat)),
                    pow10(ka as nat) == pow10(c as nat) * pow10((ka - c) as nat),
                    xa == signed(self.positive, self.mantissa * pow10((ka - c) as nat)),
            ;
            assert(y == pow10(c as nat) * yb) by (nonlinear_arith)
                requires
                    y == signed(other.positive, other.mantissa * pow10(kb as nat)),
                    pow10(kb as nat) == pow10(c as nat) * pow10((kb - c) as nat),
                    yb == signed(other.positive, other.mantissa * pow10((kb - c) as nat)),
            ;
            lemma_pow10_mono(0, c as nat);
            assert(abs_int(x - y) == pow10(c as nat) * abs_int(xa - yb)) by (nonlinear_arith)
                requires
                    x == pow10(c as nat) * xa,
                    y == pow10(c as nat) * yb,
                    pow10(c as nat) >= 1,
            ;
            if exact {
                lemma_scaled_below(c as nat, t as nat, abs_int(xa - yb));
            } else {
                assert(c == 0);
                reveal_with_fuel(pow10, 1);
            }
            assert(close_numbers(*self, *other) == (abs_int(x - y) < pow10(t as nat)));
            reveal_with_fuel(pow10, 1);
            assert(pow10(0) == 1);
            if ka >= kb {
                assert(kb - c == 0);
                assert(other.mantissa * pow10(0) == other.mantissa) by (nonlinear_arith)
                    requires
                        pow10(0) == 1,
                ;
                assert(yb == signed(other.positive, other.mantissa as int));
            } else {
                assert(ka - c == 0);
                assert(self.mantissa * pow10(0) == self.mantissa) by (nonlinear_arith)
                    requires
                        pow10(0) == 1,
                ;
                assert(xa == signed(self.positive, self.mantissa as int));
                assert(abs_int(xa - yb) == abs_int(yb - xa));
            }
        }
        if ka >= kb {
            decide_close(self.positive, self.mantissa, ka - kb, other.positive, other.mantissa, t, exact)
        } else {
            decide_close(other.positive, other.mantissa, kb - ka, self.positive, self.mantissa, t, exact)
        }
    }


    /// Builds the number `mantissa * 10^exponent` with the given sign.
    pub fn new(positive: bool, mantissa: u64, exponent: i16) -> (r: JsonNumber)
        ensures
            r == (JsonNumber { positive, mantissa, exponent }),
    {
        JsonNumber { positive, mantissa, exponent }
    }

    /// Builds a number from its sign, mantissa and exponent.
    pub fn from_parts(parts: (bool, u64, i16)) -> (r: JsonNumber)
        ensures
            r == (JsonNumber { positive: parts.0, mantissa: parts.1, exponent: parts.2 }),
    {
        JsonNumber { positive: parts.0, mantissa: parts.1, exponent: parts.2 }
    }

}


/// A JSON value.
#[derive(Debug)]
pub enum Json {
    Null,
    Boolean(bool),
    Number(JsonNumber),
    String(String),
    Array(Vec<Json>),
    Object(JsonObject),
}

/// The members of a JSON object, in any order. Built through `insert`,
/// the entries are kept in ascending order of their keys' UTF-8 bytes, each
/// key once; comparison orders the members itself.
#[derive(Debug)]
pub struct JsonObject {
    pub entries: Vec<(String, Json)>,
}

/// The bytes of a key, by which keys are ordered.
pub open spec fn key_bytes(k: Seq<char>) -> Seq<u8> {
    encode_utf8(k)
}

/// Lexicographic order on byte strings, a proper prefix first.
pub open spec fn bytes_lt(a: Seq<u8>, b: Seq<u8>) -> bool
    decreases a.len(),
{
    if a.len() == 0 {
        b.len() > 0
    } else if b.len() == 0 {
        false
    } else if a[0] != b[0] {
        a[0] < b[0]
    } else {
        bytes_lt(a.drop_first(), b.drop_first())
    }
}

pub proof fn lemma_bytes_lt_irreflexive(a: Seq<u8>)
    ensures
        !bytes_lt(a, a),
    decreases a.len(),
{
    if a.len() > 0 {
        lemma_bytes_lt_irreflexive(a.drop_first());
    }
}

pub proof fn lemma_bytes_lt_transitive(a: Seq<u8>, b: Seq<u8>, c: Seq<u8>)
    requires
        bytes_lt(a, b),
        bytes_lt(b, c),
    ensures
        bytes_lt(a, c),
    decreases a.len(),
{
    if a.len() > 0 && b.len() > 0 && c.len() > 0 && a[0] == b[0] && b[0] == c[0] {
        lemma_bytes_lt_transitive(a.drop_first(), b.drop_first(), c.drop_first());
    }
}

pub proof fn lemma_bytes_lt_total(a: Seq<u8>, b: Seq<u8>)
    requires
        a != b,
    ensures
        bytes_lt(a, b) || bytes_lt(b, a),
    decreases a.len(),
{
    if a.len() == 0 && b.len() == 0 {
        assert(a =~= b);
    } else if a.len() > 0 && b.len() > 0 && a[0] == b[0] {
        if a.drop_first() == b.drop_first() {
            assert(a.drop_first().len() == b.drop_first().len());
            assert(a.len() == b.len());
            assert forall|k: int| 0 <= k < a.len() implies a[k] == b[k] by {
                if k > 0 {
                    assert(a[k] == a.drop_first()[k - 1]);
                    assert(b[k] == b.drop_first()[k - 1]);
                }
            }
            assert(a =~= b);
        } else {
            lemma_bytes_lt_total(a.drop_first(), b.drop_first());
        }
    }
}

/// Whether `a` orders before `b` by their UTF-8 bytes.
pub fn bytes_less(a: &[u8], b: &[u8]) -> (r: bool)
    ensures
        r == bytes_lt(a@, b@),
{
    let mut i: usize = 0;
    assert(a@.skip(0) =~= a@);
    assert(b@.skip(0) =~= b@);
    while i < a.len() && i < b.len() && a[i] == b[i]
        invariant
            i <= a@.len(),
            i <= b@.len(),
            bytes_lt(a@, b@) == bytes_lt(a@.skip(i as int), b@.skip(i as int)),
        decreases a.len() - i,
    {
        assert(a@.skip(i as int).drop_first() =~= a@.skip(i + 1));
        assert(b@.skip(i as int).drop_first() =~= b@.skip(i + 1));
        i = i + 1;
    }
    if i == a.len() {
        i < b.len()
    } else if i == b.len() {
        false
    } else {
        a[i] < b[i]
    }
}

/// Whether key `a` orders before key `b`.
pub fn key_less(a: &String, b: &String) -> (r: bool)
    ensures
        r == bytes_lt(key_bytes(a@), key_bytes(b@)),
{
    bytes_less(a.as_str().as_bytes(), b.as_str().as_bytes())
}

impl JsonObject {
    /// Keys strictly ascending.
    pub open spec fn wf(&self) -> bool {
        forall|i: int, j: int|
            0 <= i < j < self.entries@.len() ==> bytes_lt(
                key_bytes(#[trigger] self.entries@[i].0@),
                key_bytes(#[trigger] self.entries@[j].0@),
            )
    }

    /// The position of the entry with key `k`, if any.
    pub open spec fn index_of(&self, k: Seq<char>) -> Option<int> {
        if exists|i: int| 0 <= i < self.entries@.len() && #[trigger] self.entries@[i].0@ == k {
            Some(choose|i: int| 0 <= i < self.entries@.len() && #[trigger] self.entries@[i].0@ == k)
        } else {
            None
        }
    }

    /// An object without members.
    pub fn new() -> (r: JsonObject)
        ensures
            r.entries@.len() == 0,
            r.wf(),
    {
        JsonObject { entries: Vec::new() }
    }

    /// The number of members.
    pub fn len(&self) -> (r: usize)
        ensures
            r == self.entries@.len(),
    {
        self.entries.len()
    }

    /// Sets the member `key` to `value`: an entry with that key is replaced,
    /// otherwise one is added at the place that keeps the keys ascending.
    pub fn insert(&mut self, key: String, value: Json)
        requires
            old(self).wf(),
        ensures
            final(self).wf(),
            match old(self).index_of(key@) {
                Some(i) => final(self).entries@ == old(self).entries@.update(i, (key, value)),
                None => exists|p: int|
                    0 <= p <= old(self).entries@.len() && final(self).entries@ == old(
                        self,
                    ).entries@.insert(p, (key, value)),
            },
    {
        let ghost kb = key_bytes(key@);
        let mut i: usize = 0;
        while i < self.entries.len() && key_less(&self.entries[i].0, &key)
            invariant
                i <= self.entries@.len(),
                self.wf(),
                kb == key_bytes(key@),
                forall|j: int| 0 <= j < i ==> bytes_lt(key_bytes(#[trigger] self.entries@[j].0@), kb),
            decreases self.entries.len() - i,
        {
            i = i + 1;
        }
        let ghost e = self.entries@;
        proof {
            // no earlier key equals `key`, and every later one is greater
            assert forall|j: int| 0 <= j < i implies #[trigger] e[j].0@ != key@ by {
                lemma_bytes_lt_irreflexive(kb);
            }
        }
        if i < self.entries.len() && self.entries[i].0 == key {
            proof {
                assert(self.index_of(key@) == Some(i as int)) by {
                    let c = choose|c: int| 0 <= c < e.len() && #[trigger] e[c].0@ == key@;
                    if c != i {
                        if c > i {
                            assert(bytes_lt(key_bytes(e[i as int].0@), key_bytes(e[c].0@)));
                            lemma_bytes_lt_irreflexive(kb);
                        }
                    }
                }
            }
            self.entries.set(i, (key, value));
        } else {
            proof {
                if i < e.len() {
                    let ki = key_bytes(e[i as int].0@);
                    vstd::utf8::encode_utf8_decode_utf8(e[i as int].0@);
                    vstd::utf8::encode_utf8_decode_utf8(key@);
                    lemma_bytes_lt_total(kb, ki);
                    assert forall|j: int| i <= j < e.len() implies bytes_lt(
                        kb,
                        key_bytes(#[trigger] e[j].0@),
                    ) by {
                        if j > i {
                            lemma_bytes_lt_transitive(kb, ki, key_bytes(e[j].0@));
                        }
                    }
                }
                assert forall|j: int| i <= j < e.len() implies #[trigger] e[j].0@ != key@ by {
                    lemma_bytes_lt_irreflexive(kb);
                }
                assert(self.index_of(key@) is None);
            }
            self.entries.insert(i, (key, value));
            proof {
                let f = self.entries@;
                assert(f =~= e.insert(i as int, f[i as int]));
                assert forall|a: int, b: int| 0 <= a < b < f.len() implies bytes_lt(
                    key_bytes(#[trigger] f[a].0@),
                    key_bytes(#[trigger] f[b].0@),
                ) by {
                    if b < i {
                        assert(f[a] == e[a] && f[b] == e[b]);
                    } else if b == i {
                        assert(f[a] == e[a]);
                    } else if a == i {
                        assert(f[b] == e[b - 1]);
                    } else if a < i {
                        assert(f[a] == e[a] && f[b] == e[b - 1]);
                    } else {
                        assert(f[a] == e[a - 1] && f[b] == e[b - 1]);
                    }
                }
            }
        }
    }
}

} // verus!
