//! Scan intake: the natural order in which scanned files are taken in.

use vstd::prelude::*;
use crate::text::{is_digit, lower, digit_value, is_digit_char, digit_value_of, lower_char, chars_of};
use crate::db::{
    Db, GradeError, SqlParam, col_opt_i64, execute, query_one, sql_last_insert_rowid, is_read_error, id_params,
    text_param,
};

verus! {

/// One unit of a file name under natural ordering: a whole run of digits,
/// read as a number (saturated at `u64::MAX`), or a single other character,
/// ASCII-lower-cased.
pub enum NatKey {
    Number { value: nat, lead: char },
    Letter { c: char },
}

/// Length of the run of digits at the start of `s`.
pub open spec fn digit_run(s: Seq<char>) -> nat
    decreases s.len(),
{
    if s.len() > 0 && is_digit(s[0]) {
        1 + digit_run(s.drop_first())
    } else {
        0
    }
}

/// The decimal value of a string of digits.
pub open spec fn digits_value(s: Seq<char>) -> nat
    decreases s.len(),
{
    if s.len() == 0 {
        0
    } else {
        digits_value(s.drop_last()) * 10 + digit_value(s.last())
    }
}

/// `v`, or `u64::MAX` where `v` does not fit in a `u64`.
pub open spec fn saturate(v: nat) -> nat {
    if v > u64::MAX {
        u64::MAX as nat
    } else {
        v
    }
}

pub proof fn lemma_digit_run_bound(s: Seq<char>)
    ensures
        digit_run(s) <= s.len(),
        s.len() > 0 && is_digit(s[0]) ==> digit_run(s) >= 1,
        forall|k: int| 0 <= k < digit_run(s) ==> is_digit(#[trigger] s[k]),
        digit_run(s) < s.len() ==> !is_digit(s[digit_run(s) as int]),
    decreases s.len(),
{
    if s.len() > 0 && is_digit(s[0]) {
        lemma_digit_run_bound(s.drop_first());
        assert forall|k: int| 0 <= k < digit_run(s) implies is_digit(#[trigger] s[k]) by {
            if k > 0 {
                assert(s[k] == s.drop_first()[k - 1]);
            }
        }
    }
}

/// The natural-order keys of a file name.
pub open spec fn nat_keys(s: Seq<char>) -> Seq<NatKey>
    decreases s.len(),
{
    if s.len() == 0 {
        Seq::empty()
    } else if is_digit(s[0]) {
        let n = digit_run(s);
        proof {
            lemma_digit_run_bound(s);
        }
        seq![NatKey::Number { value: saturate(digits_value(s.take(n as int))), lead: s[0] }]
            + nat_keys(s.skip(n as int))
    } else {
        seq![NatKey::Letter { c: lower(s[0]) }] + nat_keys(s.drop_first())
    }
}

/// Three-way comparison of two integers: -1, 0 or 1.
pub open spec fn sign_of(x: int, y: int) -> int {
    if x < y {
        -1
    } else if x > y {
        1
    } else {
        0
    }
}

/// How two keys compare: numbers by value, characters by code point, and a
/// number against a character by the number's first digit.
pub open spec fn key_order(a: NatKey, b: NatKey) -> int {
    match (a, b) {
        (NatKey::Number { value: x, .. }, NatKey::Number { value: y, .. }) => sign_of(x as int, y as int),
        (NatKey::Number { lead, .. }, NatKey::Letter { c }) => sign_of(lead as int, c as int),
        (NatKey::Letter { c }, NatKey::Number { lead, .. }) => sign_of(c as int, lead as int),
        (NatKey::Letter { c: x }, NatKey::Letter { c: y }) => sign_of(x as int, y as int),
    }
}

/// Lexicographic comparison of key sequences; a proper prefix comes first.
pub open spec fn keys_order(a: Seq<NatKey>, b: Seq<NatKey>) -> int
    decreases a.len(),
{
    if a.len() == 0 && b.len() == 0 {
        0
    } else if a.len() == 0 {
        -1
    } else if b.len() == 0 {
        1
    } else if key_order(a[0], b[0]) != 0 {
        key_order(a[0], b[0])
    } else {
        keys_order(a.drop_first(), b.drop_first())
    }
}

/// Natural order of two file names: -1 when `a` comes first, 1 when `b`
/// does, 0 when they are interchangeable (they differ at most in letter case
/// or in leading zeros).
pub open spec fn nat_order(a: Seq<char>, b: Seq<char>) -> int {
    keys_order(nat_keys(a), nat_keys(b))
}


/// `saturate(v * 10 + d)`, without overflow.
fn saturating_push_digit(v: u64, d: u64) -> (r: u64)
    requires
        d <= 9,
    ensures
        r == saturate((v * 10 + d) as nat),
{
    if v > (u64::MAX - d) / 10 {
        assert(v * 10 + d > u64::MAX) by (nonlinear_arith)
            requires
                v > (u64::MAX - d) / 10,
                d <= 9,
        ;
        u64::MAX
    } else {
        assert(v * 10 + d <= u64::MAX) by (nonlinear_arith)
            requires
                v <= (u64::MAX - d) / 10,
                d <= 9,
        ;
        v * 10 + d
    }
}

proof fn lemma_saturate_step(x: nat, d: nat)
    requires
        d <= 9,
    ensures
        saturate(saturate(x) * 10 + d) == saturate(x * 10 + d),
{
    if x > u64::MAX {
        assert(x * 10 + d > u64::MAX) by (nonlinear_arith)
            requires
                x > u64::MAX,
        ;
        assert((u64::MAX as nat) * 10 + d > u64::MAX) by (nonlinear_arith);
    }
}

proof fn lemma_digit_run_exact(s: Seq<char>, n: int)
    requires
        0 <= n <= s.len(),
        forall|k: int| 0 <= k < n ==> is_digit(#[trigger] s[k]),
        n == s.len() || !is_digit(s[n]),
    ensures
        digit_run(s) == n,
    decreases n,
{
    if n > 0 {
        let t = s.drop_first();
        assert forall|k: int| 0 <= k < n - 1 implies is_digit(#[trigger] t[k]) by {
            assert(t[k] == s[k + 1]);
        }
        if n < s.len() {
            assert(t[n - 1] == s[n]);
        }
        lemma_digit_run_exact(t, n - 1);
    }
}

/// The number that starts at `s[i]`: its saturated value and the position
/// just after its last digit.
fn scan_number(s: &[char], i: usize) -> (r: (u64, usize))
    requires
        i < s.len(),
        is_digit(s@[i as int]),
    ensures
        r.1 == i + digit_run(s@.skip(i as int)),
        i < r.1 <= s.len(),
        r.0 == saturate(digits_value(s@.subrange(i as int, r.1 as int))),
{
    let mut k = i;
    let mut v: u64 = 0;
    while k < s.len() && is_digit_char(s[k])
        invariant
            i <= k <= s.len(),
            forall|t: int| i <= t < k ==> is_digit(#[trigger] s@[t]),
            v == saturate(digits_value(s@.subrange(i as int, k as int))),
        decreases s.len() - k,
    {
        let d = digit_value_of(s[k]);
        proof {
            let old_sub = s@.subrange(i as int, k as int);
            let new_sub = s@.subrange(i as int, k + 1);
            assert(new_sub.drop_last() =~= old_sub);
            lemma_saturate_step(digits_value(old_sub), d as nat);
        }
        v = saturating_push_digit(v, d);
        k = k + 1;
    }
    proof {
        let t = s@.skip(i as int);
        assert forall|j: int| 0 <= j < k - i implies is_digit(#[trigger] t[j]) by {
            assert(t[j] == s@[i + j]);
        }
        if k < s.len() {
            assert(t[k - i] == s@[k as int]);
        }
        lemma_digit_run_exact(t, k - i);
    }
    (v, k)
}

proof fn lemma_lower_digit(c: char)
    ensures
        is_digit(lower(c)) == is_digit(c),
        is_digit(c) ==> lower(c) == c,
{
}

/// Unfolds `nat_keys` at position `i` of `s`.
proof fn lemma_nat_keys_at(s: Seq<char>, i: int)
    requires
        0 <= i < s.len(),
    ensures
        is_digit(s[i]) ==> nat_keys(s.skip(i)) == seq![
            NatKey::Number {
                value: saturate(digits_value(s.subrange(i, i + digit_run(s.skip(i))))),
                lead: s[i],
            },
        ] + nat_keys(s.skip(i + digit_run(s.skip(i)))),
        !is_digit(s[i]) ==> nat_keys(s.skip(i)) == seq![NatKey::Letter { c: lower(s[i]) }]
            + nat_keys(s.skip(i + 1)),
{
    let t = s.skip(i);
    assert(t[0] == s[i]);
    lemma_digit_run_bound(t);
    let n = digit_run(t) as int;
    assert(t.take(n) =~= s.subrange(i, i + n));
    assert(t.skip(n) =~= s.skip(i + n));
    assert(t.drop_first() =~= s.skip(i + 1));
}

/// Natural order of two character sequences: -1, 0 or 1.
fn order_chars(a: &[char], b: &[char]) -> (r: i8)
    ensures
        r as int == nat_order(a@, b@),
{
    let mut i: usize = 0;
    let mut j: usize = 0;
    assert(a@.skip(0) =~= a@);
    assert(b@.skip(0) =~= b@);
    loop
        invariant
            i <= a.len(),
            j <= b.len(),
            nat_order(a@, b@) == keys_order(nat_keys(a@.skip(i as int)), nat_keys(b@.skip(j as int))),
        decreases a.len() - i + b.len() - j,
    {
        if i == a.len() && j == b.len() {
            assert(a@.skip(i as int).len() == 0);
            assert(b@.skip(j as int).len() == 0);
            return 0;
        }
        if i == a.len() {
            assert(a@.skip(i as int).len() == 0);
            proof {
                lemma_nat_keys_at(b@, j as int);
            }
            return -1;
        }
        if j == b.len() {
            assert(b@.skip(j as int).len() == 0);
            proof {
                lemma_nat_keys_at(a@, i as int);
            }
            return 1;
        }
        let ca = a[i];
        let cb = b[j];
        proof {
            lemma_nat_keys_at(a@, i as int);
            lemma_nat_keys_at(b@, j as int);
            lemma_lower_digit(ca);
            lemma_lower_digit(cb);
        }
        if is_digit_char(ca) && is_digit_char(cb) {
            let (va, ni) = scan_number(a, i);
            let (vb, nj) = scan_number(b, j);
            if va < vb {
                return -1;
            }
            if va > vb {
                return 1;
            }
            proof {
                let ka = nat_keys(a@.skip(i as int));
                let kb = nat_keys(b@.skip(j as int));
                assert(ka.drop_first() =~= nat_keys(a@.skip(ni as int)));
                assert(kb.drop_first() =~= nat_keys(b@.skip(nj as int)));
            }
            i = ni;
            j = nj;
        } else {
            let la = lower_char(ca);
            let lb = lower_char(cb);
            if la < lb {
                return -1;
            }
            if la > lb {
                return 1;
            }
            proof {
                let ka = nat_keys(a@.skip(i as int));
                let kb = nat_keys(b@.skip(j as int));
                assert(ka.drop_first() =~= nat_keys(a@.skip(i + 1)));
                assert(kb.drop_first() =~= nat_keys(b@.skip(j + 1)));
            }
            i = i + 1;
            j = j + 1;
        }
    }
}


/// Keys as `nat_keys` makes them: numbers start with a digit, and other
/// characters are not digits.
pub open spec fn keys_well_formed(ks: Seq<NatKey>) -> bool {
    forall|k: int|
        0 <= k < ks.len() ==> match #[trigger] ks[k] {
            NatKey::Number { lead, .. } => is_digit(lead),
            NatKey::Letter { c } => !is_digit(c),
        }
}

/// A single integer that orders well-formed keys as `key_order` does:
/// characters below the digits, then numbers by value, then characters
/// above the digits.
spec fn key_rank(k: NatKey) -> int {
    match k {
        NatKey::Number { value, .. } => 48 + value as int,
        NatKey::Letter { c } => if (c as int) < 48 {
            c as int
        } else {
            c as int + 0x4_0000_0000_0000_0000int
        },
    }
}

proof fn lemma_key_rank(a: NatKey, b: NatKey)
    requires
        match a {
            NatKey::Number { lead, value } => is_digit(lead) && value <= u64::MAX,
            NatKey::Letter { c } => !is_digit(c),
        },
        match b {
            NatKey::Number { lead, value } => is_digit(lead) && value <= u64::MAX,
            NatKey::Letter { c } => !is_digit(c),
        },
    ensures
        key_order(a, b) == sign_of(key_rank(a), key_rank(b)),
{
}

/// Keys with the bound on numbers that saturation gives them.
spec fn keys_bounded(ks: Seq<NatKey>) -> bool {
    &&& keys_well_formed(ks)
    &&& forall|k: int|
        0 <= k < ks.len() ==> match #[trigger] ks[k] {
            NatKey::Number { value, .. } => value <= u64::MAX,
            NatKey::Letter { .. } => true,
        }
}

proof fn lemma_nat_keys_bounded(s: Seq<char>)
    ensures
        keys_bounded(nat_keys(s)),
    decreases s.len(),
{
    if s.len() > 0 {
        if is_digit(s[0]) {
            lemma_digit_run_bound(s);
            let n = digit_run(s) as int;
            lemma_nat_keys_bounded(s.skip(n));
            let head = NatKey::Number {
                value: saturate(digits_value(s.take(n))),
                lead: s[0],
            };
            let ks = nat_keys(s);
            assert(ks == seq![head] + nat_keys(s.skip(n)));
            assert forall|k: int| 1 <= k < ks.len() implies ks[k] == nat_keys(s.skip(n))[k - 1] by {
            }
        } else {
            lemma_lower_digit(s[0]);
            lemma_nat_keys_bounded(s.drop_first());
            let ks = nat_keys(s);
            assert forall|k: int| 1 <= k < ks.len() implies ks[k] == nat_keys(s.drop_first())[k - 1] by {
            }
        }
    }
}

proof fn lemma_keys_order_antisymmetric(a: Seq<NatKey>, b: Seq<NatKey>)
    ensures
        keys_order(a, b) == -keys_order(b, a),
    decreases a.len(),
{
    if a.len() > 0 && b.len() > 0 {
        lemma_keys_order_antisymmetric(a.drop_first(), b.drop_first());
    }
}

proof fn lemma_keys_bounded_tail(ks: Seq<NatKey>)
    requires
        keys_bounded(ks),
        ks.len() > 0,
    ensures
        keys_bounded(ks.drop_first()),
{
    let t = ks.drop_first();
    assert forall|k: int| 0 <= k < t.len() implies #[trigger] t[k] == ks[k + 1] by {}
    assert forall|k: int| 0 <= k < t.len() implies match #[trigger] t[k] {
        NatKey::Number { lead, .. } => is_digit(lead),
        NatKey::Letter { c } => !is_digit(c),
    } by {
        assert(t[k] == ks[k + 1]);
    }
    assert forall|k: int| 0 <= k < t.len() implies match #[trigger] t[k] {
        NatKey::Number { value, .. } => value <= u64::MAX,
        NatKey::Letter { .. } => true,
    } by {
        assert(t[k] == ks[k + 1]);
    }
}

proof fn lemma_keys_order_transitive(a: Seq<NatKey>, b: Seq<NatKey>, c: Seq<NatKey>)
    requires
        keys_bounded(a),
        keys_bounded(b),
        keys_bounded(c),
        keys_order(a, b) <= 0,
        keys_order(b, c) <= 0,
    ensures
        keys_order(a, c) <= 0,
        keys_order(a, b) < 0 || keys_order(b, c) < 0 ==> keys_order(a, c) < 0,
    decreases a.len(),
{
    if a.len() > 0 && b.len() > 0 && c.len() > 0 {
        lemma_key_rank(a[0], b[0]);
        lemma_key_rank(b[0], c[0]);
        lemma_key_rank(a[0], c[0]);
        if key_rank(a[0]) == key_rank(b[0]) && key_rank(b[0]) == key_rank(c[0]) {
            let (ta, tb, tc) = (a.drop_first(), b.drop_first(), c.drop_first());
            lemma_keys_bounded_tail(a);
            lemma_keys_bounded_tail(b);
            lemma_keys_bounded_tail(c);
            lemma_keys_order_transitive(ta, tb, tc);
        }
    }
}

/// Natural order is antisymmetric: swapping the names flips the answer.
pub proof fn lemma_nat_order_antisymmetric(a: Seq<char>, b: Seq<char>)
    ensures
        nat_order(a, b) == -nat_order(b, a),
        nat_order(a, a) == 0,
{
    lemma_keys_order_antisymmetric(nat_keys(a), nat_keys(b));
    lemma_keys_order_antisymmetric(nat_keys(a), nat_keys(a));
}

/// Natural order is transitive: a name not after a second, which is not
/// after a third, is not after the third, and strictly before it when either
/// step is strict.
pub proof fn lemma_nat_order_transitive(a: Seq<char>, b: Seq<char>, c: Seq<char>)
    requires
        nat_order(a, b) <= 0,
        nat_order(b, c) <= 0,
    ensures
        nat_order(a, c) <= 0,
        nat_order(a, b) < 0 || nat_order(b, c) < 0 ==> nat_order(a, c) < 0,
{
    lemma_nat_keys_bounded(a);
    lemma_nat_keys_bounded(b);
    lemma_nat_keys_bounded(c);
    lemma_keys_order_transitive(nat_keys(a), nat_keys(b), nat_keys(c));
}

/// Natural order only answers -1, 0 or 1.
pub proof fn lemma_nat_order_range(a: Seq<char>, b: Seq<char>)
    ensures
        -1 <= nat_order(a, b) <= 1,
{
    lemma_keys_order_range(nat_keys(a), nat_keys(b));
}

proof fn lemma_keys_order_range(a: Seq<NatKey>, b: Seq<NatKey>)
    ensures
        -1 <= keys_order(a, b) <= 1,
    decreases a.len(),
{
    if a.len() > 0 && b.len() > 0 {
        lemma_keys_order_range(a.drop_first(), b.drop_first());
    }
}


/// Every name in `s` is, in natural order, not after any name that follows it.
pub open spec fn naturally_sorted(s: Seq<String>) -> bool {
    forall|k: int, l: int| 0 <= k < l < s.len() ==> nat_order(#[trigger] s[k]@, #[trigger] s[l]@) <= 0
}

/// `out` is `input` taken in the order `perm` (`out[k]` is `input[perm[k]]`),
/// sorted naturally, and names that compare equal keep their input order.
pub open spec fn stable_sort_by(out: Seq<String>, input: Seq<String>, perm: Seq<int>) -> bool {
    &&& out.len() == input.len()
    &&& perm.len() == input.len()
    &&& forall|k: int| 0 <= k < perm.len() ==> 0 <= #[trigger] perm[k] < input.len()
    &&& forall|k: int, l: int| 0 <= k < l < perm.len() ==> #[trigger] perm[k] != #[trigger] perm[l]
    &&& forall|k: int| 0 <= k < out.len() ==> #[trigger] out[k] == input[perm[k]]
    &&& naturally_sorted(out)
    &&& forall|k: int, l: int|
        0 <= k < l < out.len() && nat_order(#[trigger] out[k]@, #[trigger] out[l]@) == 0 ==> perm[k]
            < perm[l]
}

/// `out` is a stable natural sort of `input`.
pub open spec fn is_stable_natural_sort(out: Seq<String>, input: Seq<String>) -> bool {
    exists|perm: Seq<int>| stable_sort_by(out, input, perm)
}

proof fn lemma_insert_sorted(
    out: Seq<String>,
    input: Seq<String>,
    perm: Seq<int>,
    x: String,
    p: int,
)
    requires
        stable_sort_by(out, input, perm),
        0 <= p <= out.len(),
        forall|q: int| 0 <= q < p ==> nat_order(x@, #[trigger] out[q]@) >= 0,
        p < out.len() ==> nat_order(x@, out[p]@) < 0,
    ensures
        stable_sort_by(out.insert(p, x), input.push(x), perm.insert(p, input.len() as int)),
{
    let n = input.len() as int;
    let o2 = out.insert(p, x);
    let p2 = perm.insert(p, n);
    let i2 = input.push(x);
    out.insert_ensures(p, x);
    perm.insert_ensures(p, n);
    assert forall|k: int| 0 <= k < p2.len() implies 0 <= #[trigger] p2[k] < i2.len() by {
        if k > p {
            assert(p2[k] == perm[k - 1]);
        }
    }
    assert forall|k: int, l: int| 0 <= k < l < p2.len() implies #[trigger] p2[k] != #[trigger] p2[l] by {
        if k < p && l > p {
            assert(p2[l] == perm[l - 1]);
        } else if k > p {
            assert(p2[k] == perm[k - 1] && p2[l] == perm[l - 1]);
        } else if l > p {
            assert(p2[l] == perm[l - 1]);
        }
    }
    assert forall|k: int| 0 <= k < o2.len() implies #[trigger] o2[k] == i2[p2[k]] by {
        if k < p {
            assert(o2[k] == out[k] && p2[k] == perm[k]);
        } else if k > p {
            assert(o2[k] == out[k - 1] && p2[k] == perm[k - 1]);
        }
    }
    assert forall|k: int, l: int| 0 <= k < l < o2.len() implies nat_order(
        #[trigger] o2[k]@,
        #[trigger] o2[l]@,
    ) <= 0 && (nat_order(o2[k]@, o2[l]@) == 0 ==> p2[k] < p2[l]) by {
        if l < p {
            assert(o2[k] == out[k] && o2[l] == out[l]);
        } else if l == p {
            assert(o2[k] == out[k]);
            lemma_nat_order_antisymmetric(x@, out[k]@);
        } else if k < p {
            assert(o2[k] == out[k] && o2[l] == out[l - 1]);
        } else if k == p {
            assert(o2[l] == out[l - 1]);
            if l - 1 > p {
                assert(nat_order(out[p]@, out[l - 1]@) <= 0);
                lemma_nat_order_transitive(x@, out[p]@, out[l - 1]@);
            }
        } else {
            assert(o2[k] == out[k - 1] && o2[l] == out[l - 1]);
        }
    }
}

/// Sorts `files` by `nat_order`, stably, by insertion.
fn natural_sort(files: &Vec<String>) -> (out: Vec<String>)
    ensures
        is_stable_natural_sort(out@, files@),
{
    let mut out: Vec<String> = Vec::new();
    let mut keys: Vec<Vec<char>> = Vec::new();
    let ghost mut perm: Seq<int> = Seq::empty();
    let mut i: usize = 0;
    while i < files.len()
        invariant
            i <= files.len(),
            keys.len() == out.len(),
            forall|k: int| 0 <= k < keys.len() ==> (#[trigger] keys@[k])@ == out@[k]@,
            stable_sort_by(out@, files@.take(i as int), perm),
        decreases files.len() - i,
    {
        let x = files[i].clone();
        let xk = chars_of(x.as_str());
        let mut p: usize = 0;
        while p < out.len() && order_chars(xk.as_slice(), keys[p].as_slice()) >= 0
            invariant
                p <= out.len(),
                keys.len() == out.len(),
                forall|k: int| 0 <= k < keys.len() ==> (#[trigger] keys@[k])@ == out@[k]@,
                xk@ == x@,
                forall|q: int| 0 <= q < p ==> nat_order(x@, #[trigger] out@[q]@) >= 0,
            decreases out.len() - p,
        {
            p = p + 1;
        }
        proof {
            assert(files@.take(i + 1) =~= files@.take(i as int).push(x));
            lemma_insert_sorted(out@, files@.take(i as int), perm, x, p as int);
            perm = perm.insert(p as int, i as int);
        }
        let ghost old_keys = keys@;
        let ghost old_out = out@;
        out.insert(p, x);
        keys.insert(p, xk);
        proof {
            old_out.insert_ensures(p as int, x);
            old_keys.insert_ensures(p as int, xk);
            assert forall|k: int| 0 <= k < keys.len() implies (#[trigger] keys@[k])@ == out@[k]@ by {
                if k > p {
                    assert(keys@[k] == old_keys[k - 1]);
                    assert(out@[k] == old_out[k - 1]);
                } else if k < p {
                    assert(keys@[k] == old_keys[k]);
                    assert(out@[k] == old_out[k]);
                }
            }
        }
        i = i + 1;
    }
    assert(files@.take(files.len() as int) =~= files@);
    out
}

/// Orders scanned file names the way a person numbers pages: digit runs by
/// their value, other characters one by one without regard to ASCII case.
pub fn sort_scan_order(files: Vec<String>) -> (sorted: Vec<String>)
    ensures
        is_stable_natural_sort(sorted@, files@),
{
    natural_sort(&files)
}

/// Natural comparison of two file names.
pub fn compare_nat(a: &str, b: &str) -> (r: std::cmp::Ordering)
    ensures
        (r == std::cmp::Ordering::Less) == (nat_order(a@, b@) < 0),
        (r == std::cmp::Ordering::Equal) == (nat_order(a@, b@) == 0),
        (r == std::cmp::Ordering::Greater) == (nat_order(a@, b@) > 0),
{
    let ka = chars_of(a);
    let kb = chars_of(b);
    let r = order_chars(ka.as_slice(), kb.as_slice());
    if r < 0 {
        std::cmp::Ordering::Less
    } else if r > 0 {
        std::cmp::Ordering::Greater
    } else {
        std::cmp::Ordering::Equal
    }
}


/// The scan position after the highest one taken: one more than `max`, or 0
/// where nothing was taken in yet.
pub open spec fn seq_after(max: Option<i64>) -> int {
    match max {
        Some(x) => x + 1,
        None => 0,
    }
}

/// The next scan position; `Overflow` where the highest one is `i64::MAX`.
pub fn next_seq_after(max: Option<i64>) -> (r: Result<i64, GradeError>)
    ensures
        r is Ok <==> seq_after(max) <= i64::MAX,
        r matches Ok(v) ==> v == seq_after(max),
        r matches Err(e) ==> e == GradeError::Overflow,
{
    match max {
        Some(x) => {
            if x == i64::MAX {
                Err(GradeError::Overflow)
            } else {
                Ok(x + 1)
            }
        },
        None => Ok(0),
    }
}

/// The scan position for the next page of an exam: one after the highest
/// stored, or 0 where the exam has no page yet; `Overflow` where the
/// highest is `i64::MAX`.
pub fn next_seq(db: &Db, exam_id: i64) -> (r: Result<i64, GradeError>)
    ensures
        r matches Ok(v) ==> exists|max: Option<i64>| v == #[trigger] seq_after(max),
        r matches Err(e) ==> is_read_error(e) || e is Overflow,
{
    let row = query_one(&db.conn, "SELECT MAX(seq) FROM page WHERE exam_id=?1", id_params(exam_id).as_slice())?;
    let max = col_opt_i64(&row, 0)?;
    let r = next_seq_after(max);
    assert(r matches Ok(v) ==> v == seq_after(max));
    r
}

/// The values bound to the insert of a scanned page: `?1` the exam, `?2`
/// the file name, `?3` the scan position.
pub fn ingested_page_params(exam_id: i64, filename: &str, seq: i64) -> (p: Vec<SqlParam>)
    ensures
        p@.len() == 3,
        p@[0] == SqlParam::Integer(exam_id),
        text_param(p@[1], filename@),
        p@[2] == SqlParam::Integer(seq),
{
    let mut p: Vec<SqlParam> = Vec::new();
    p.push(SqlParam::Integer(exam_id));
    p.push(SqlParam::Text(filename.to_owned()));
    p.push(SqlParam::Integer(seq));
    p
}

/// Stores a scanned page that is not labelled yet and gives its id.
pub fn add_ingested_page(db: &Db, exam_id: i64, filename: &str, seq: i64) -> (r: Result<i64, GradeError>)
    ensures
        r matches Err(e) ==> e is Sql,
{
    execute(
        &db.conn,
        "INSERT INTO page(exam_id, student_id, problem_number, image_path, seq, status)
         VALUES(?1, NULL, NULL, ?2, ?3, 'ingested')",
        ingested_page_params(exam_id, filename, seq).as_slice(),
    )?;
    Ok(sql_last_insert_rowid(&db.conn))
}


/// The part of `s` after its last `c`, or all of `s` where it has none.
pub open spec fn after_last(s: Seq<char>, c: char) -> Seq<char>
    decreases s.len(),
{
    if s.len() == 0 {
        s
    } else if s.last() == c {
        Seq::empty()
    } else {
        after_last(s.drop_last(), c).push(s.last())
    }
}

/// The extension of a file name, ASCII-lower-cased: what follows the last
/// dot (all of the name where there is none).
pub open spec fn extension(name: Seq<char>) -> Seq<char> {
    crate::text::lower_seq(after_last(name, '.'))
}

/// A scanned image: extension jpg, jpeg, png or webp, in any ASCII case.
pub open spec fn is_image_name(name: Seq<char>) -> bool {
    let e = extension(name);
    e == "jpg"@ || e == "jpeg"@ || e == "png"@ || e == "webp"@
}

/// A PDF file: extension pdf, in any ASCII case.
pub open spec fn is_pdf_name(name: Seq<char>) -> bool {
    extension(name) == "pdf"@
}

fn extension_of(name: &str) -> (e: Vec<char>)
    ensures
        e@ == extension(name@),
{
    let s = chars_of(name);
    let mut k = s.len();
    assert(s@.take(k as int) =~= s@);
    assert(s@.skip(k as int) =~= Seq::<char>::empty());
    assert(after_last(s@, '.') + Seq::<char>::empty() =~= after_last(s@, '.'));
    while k > 0 && s[k - 1] != '.'
        invariant
            k <= s.len(),
            after_last(s@, '.') == after_last(s@.take(k as int), '.') + s@.skip(k as int),
        decreases k,
    {
        let ghost t = s@.take(k as int);
        assert(t.drop_last() =~= s@.take(k - 1));
        assert(after_last(t, '.') == after_last(s@.take(k - 1), '.').push(t.last()));
        assert(after_last(s@.take(k - 1), '.').push(s@[k - 1]) + s@.skip(k as int) =~= after_last(
            s@.take(k - 1),
            '.',
        ) + s@.skip(k - 1));
        k = k - 1;
    }
    let ghost t = s@.take(k as int);
    assert(after_last(t, '.') =~= Seq::<char>::empty());
    let mut tail: Vec<char> = Vec::new();
    let mut i = k;
    while i < s.len()
        invariant
            k <= i <= s.len(),
            tail@ == s@.subrange(k as int, i as int),
        decreases s.len() - i,
    {
        tail.push(s[i]);
        i = i + 1;
        assert(tail@ =~= s@.subrange(k as int, i as int));
    }
    assert(s@.subrange(k as int, s.len() as int) =~= s@.skip(k as int));
    assert(Seq::<char>::empty() + s@.skip(k as int) =~= s@.skip(k as int));
    crate::text::lower_chars(tail.as_slice())
}

/// Whether `name` is a scanned image to take in.
pub fn image_file_name(name: &str) -> (r: bool)
    ensures
        r == is_image_name(name@),
{
    let e = extension_of(name);
    crate::text::chars_equal_str(e.as_slice(), "jpg") || crate::text::chars_equal_str(e.as_slice(), "jpeg")
        || crate::text::chars_equal_str(e.as_slice(), "png") || crate::text::chars_equal_str(e.as_slice(), "webp")
}

/// Whether `name` is a PDF file.
pub fn pdf_file_name(name: &str) -> (r: bool)
    ensures
        r == is_pdf_name(name@),
{
    let e = extension_of(name);
    crate::text::chars_equal_str(e.as_slice(), "pdf")
}

/// The PDF files (`pdf`) or the scanned images among `names`, in order.
pub open spec fn names_kept(names: Seq<String>, pdf: bool) -> Seq<String> {
    names.filter(|s: String| if pdf { is_pdf_name(s@) } else { is_image_name(s@) })
}

fn keep_names(names: Vec<String>, pdf: bool) -> (kept: Vec<String>)
    ensures
        kept@ == names_kept(names@, pdf),
{
    let ghost f = |s: String| if pdf { is_pdf_name(s@) } else { is_image_name(s@) };
    let mut kept: Vec<String> = Vec::new();
    let mut i: usize = 0;
    while i < names.len()
        invariant
            i <= names.len(),
            f == (|s: String| if pdf { is_pdf_name(s@) } else { is_image_name(s@) }),
            kept@ == names@.take(i as int).filter(f),
        decreases names.len() - i,
    {
        reveal_with_fuel(Seq::<_>::filter, 1);
        let ok = if pdf { pdf_file_name(names[i].as_str()) } else { image_file_name(names[i].as_str()) };
        assert(names@.take(i + 1).drop_last() =~= names@.take(i as int));
        if ok {
            kept.push(names[i].clone());
        }
        i = i + 1;
    }
    assert(names@.take(names.len() as int) =~= names@);
    kept
}

/// The scanned images among the files of a folder, in the order they are
/// taken in.
pub fn images_in_scan_order(names: Vec<String>) -> (ordered: Vec<String>)
    ensures
        is_stable_natural_sort(ordered@, names_kept(names@, false)),
{
    let kept = keep_names(names, false);
    sort_scan_order(kept)
}

/// The PDF files among the files of a folder, in natural order.
pub fn pdfs_in_scan_order(names: Vec<String>) -> (ordered: Vec<String>)
    ensures
        is_stable_natural_sort(ordered@, names_kept(names@, true)),
{
    let kept = keep_names(names, true);
    sort_scan_order(kept)
}

/// What happened to one file while a folder is taken in.
pub enum IngestOutcome {
    /// A file of that name is already among the exam's images: it was taken
    /// in before and is skipped.
    AlreadyTaken,
    /// The file was copied and its page stored.
    Stored,
    /// Copying the file or storing its page failed.
    Failed,
}

/// Progress of taking in a folder: the next scan position and how many
/// pages were stored.
pub struct IngestProgress {
    pub seq: i64,
    pub count: usize,
}

/// The progress after one file, as `ingest_step` computes it.
pub open spec fn next_progress(p: IngestProgress, outcome: IngestOutcome) -> IngestProgress {
    match outcome {
        IngestOutcome::AlreadyTaken => p,
        IngestOutcome::Stored => IngestProgress { seq: (p.seq + 1) as i64, count: (p.count + 1) as usize },
        IngestOutcome::Failed => IngestProgress { seq: (p.seq + 1) as i64, count: p.count },
    }
}

/// The progress after the files with outcomes `outs`, in order.
pub open spec fn progress_after(p: IngestProgress, outs: Seq<IngestOutcome>) -> IngestProgress
    decreases outs.len(),
{
    if outs.len() == 0 {
        p
    } else {
        progress_after(next_progress(p, outs[0]), outs.drop_first())
    }
}

/// Taking in a folder whose files were all taken in before adds nothing:
/// no page is counted and the next scan position stays where it was.
pub proof fn lemma_reingest_adds_nothing(p: IngestProgress, outs: Seq<IngestOutcome>)
    requires
        forall|i: int| 0 <= i < outs.len() ==> #[trigger] outs[i] is AlreadyTaken,
    ensures
        progress_after(p, outs) == p,
    decreases outs.len(),
{
    if outs.len() > 0 {
        assert(outs[0] is AlreadyTaken);
        lemma_reingest_adds_nothing(p, outs.drop_first());
    }
}

/// The progress after one file. A file taken in before changes nothing; a
/// stored file uses its scan position and counts; a failed one still uses
/// its position, so positions stay unique and in order.
pub fn ingest_step(p: IngestProgress, outcome: IngestOutcome) -> (next: IngestProgress)
    requires
        !(outcome is AlreadyTaken) ==> p.seq < i64::MAX,
        outcome is Stored ==> p.count < usize::MAX,
    ensures
        match outcome {
            IngestOutcome::AlreadyTaken => next.seq == p.seq && next.count == p.count,
            IngestOutcome::Stored => next.seq == p.seq + 1 && next.count == p.count + 1,
            IngestOutcome::Failed => next.seq == p.seq + 1 && next.count == p.count,
        },
        next == next_progress(p, outcome),
{
    match outcome {
        IngestOutcome::AlreadyTaken => p,
        IngestOutcome::Stored => IngestProgress { seq: p.seq + 1, count: p.count + 1 },
        IngestOutcome::Failed => IngestProgress { seq: p.seq + 1, count: p.count },
    }
}


/// A name that starts with a digit comes before one that starts with an
/// ASCII letter, whatever follows.
pub proof fn lemma_digits_before_letters(a: Seq<char>, b: Seq<char>)
    requires
        a.len() > 0,
        b.len() > 0,
        is_digit(a[0]),
        ('a' <= b[0] && b[0] <= 'z') || ('A' <= b[0] && b[0] <= 'Z'),
    ensures
        nat_order(a, b) == -1,
{
    assert(a.skip(0) =~= a);
    assert(b.skip(0) =~= b);
    lemma_nat_keys_at(a, 0);
    lemma_nat_keys_at(b, 0);
}

proof fn lemma_all_digits_run(s: Seq<char>)
    requires
        forall|k: int| 0 <= k < s.len() ==> is_digit(#[trigger] s[k]),
    ensures
        digit_run(s) == s.len(),
{
    lemma_digit_run_exact(s, s.len() as int);
}

/// Two names made only of digits compare by their values (saturated at
/// `u64::MAX`), whatever leading zeros they have.
pub proof fn lemma_numbers_by_value(a: Seq<char>, b: Seq<char>)
    requires
        a.len() > 0,
        b.len() > 0,
        forall|k: int| 0 <= k < a.len() ==> is_digit(#[trigger] a[k]),
        forall|k: int| 0 <= k < b.len() ==> is_digit(#[trigger] b[k]),
    ensures
        nat_order(a, b) == sign_of(saturate(digits_value(a)) as int, saturate(digits_value(b)) as int),
{
    lemma_all_digits_run(a);
    lemma_all_digits_run(b);
    assert(a.take(a.len() as int) =~= a);
    assert(b.take(b.len() as int) =~= b);
    assert(a.skip(a.len() as int) =~= Seq::<char>::empty());
    assert(b.skip(b.len() as int) =~= Seq::<char>::empty());
    assert(a.skip(0) =~= a);
    assert(b.skip(0) =~= b);
    assert(a.subrange(0, a.len() as int) =~= a);
    assert(b.subrange(0, b.len() as int) =~= b);
    lemma_nat_keys_at(a, 0);
    lemma_nat_keys_at(b, 0);
    let ka = nat_keys(a);
    let kb = nat_keys(b);
    assert(nat_keys(Seq::<char>::empty()) == Seq::<NatKey>::empty());
    assert(ka.len() == 1);
    assert(kb.len() == 1);
    assert(ka.drop_first() =~= Seq::<NatKey>::empty());
    assert(kb.drop_first() =~= Seq::<NatKey>::empty());
    assert(keys_order(ka.drop_first(), kb.drop_first()) == 0);
    assert(ka[0] == (NatKey::Number { value: saturate(digits_value(a)), lead: a[0] }));
    assert(kb[0] == (NatKey::Number { value: saturate(digits_value(b)), lead: b[0] }));
}

} // verus!
