//! Invite tokens: fixed-length strings of lowercase letters handed out in
//! increasing order by a base-26 counter, `a` being the digit 0 and the
//! rightmost letter the least significant.
use vstd::arithmetic::power::pow;
use vstd::prelude::*;

verus! {

/// The digit 0 of the counter, `a`.
pub const LETTER_A: u8 = 97;

/// The digit 25 of the counter, `z`.
pub const LETTER_Z: u8 = 122;

/// Every byte is a lowercase ASCII letter.
pub open spec fn is_lowercase(s: Seq<u8>) -> bool {
    forall|i: int| 0 <= i < s.len() ==> LETTER_A <= #[trigger] s[i] <= LETTER_Z
}

/// Every letter is `z`: the counter has no successor of the same length.
pub open spec fn is_exhausted(s: Seq<u8>) -> bool {
    forall|i: int| 0 <= i < s.len() ==> #[trigger] s[i] == LETTER_Z
}

/// The number that the letters spell in base 26.
pub open spec fn token_value(s: Seq<u8>) -> int
    decreases s.len(),
{
    if s.len() == 0 {
        0
    } else {
        token_value(s.drop_last()) * 26 + (s.last() - LETTER_A)
    }
}

/// Lexicographic order on sequences of the same length.
pub open spec fn lex_less(a: Seq<u8>, b: Seq<u8>) -> bool
    decreases a.len(),
{
    if a.len() == 0 || b.len() == 0 {
        false
    } else {
        lex_less(a.drop_last(), b.drop_last()) || (a.drop_last() == b.drop_last() && a.last() < b.last())
    }
}

/// The counter after one step: the last letter that is not `z` goes up by one
/// and every `z` after it becomes `a`.
pub open spec fn increment(s: Seq<u8>) -> Seq<u8>
    decreases s.len(),
{
    if s.len() == 0 {
        s
    } else if s.last() != LETTER_Z {
        s.drop_last().push((s.last() + 1) as u8)
    } else {
        increment(s.drop_last()).push(LETTER_A)
    }
}

/// The counter after `n` steps.
pub open spec fn advance(s: Seq<u8>, n: nat) -> Seq<u8>
    decreases n,
{
    if n == 0 {
        s
    } else {
        increment(advance(s, (n - 1) as nat))
    }
}

/// The characters of an ASCII byte string.
pub open spec fn ascii_chars(s: Seq<u8>) -> Seq<char> {
    s.map_values(|b: u8| b as char)
}

/// One step of the counter adds one to its value and keeps it lowercase and of the same length.
pub proof fn lemma_increment(s: Seq<u8>)
    requires
        is_lowercase(s),
        !is_exhausted(s),
    ensures
        increment(s).len() == s.len(),
        is_lowercase(increment(s)),
        token_value(increment(s)) == token_value(s) + 1,
    decreases s.len(),
{
    let p = s.drop_last();
    if s.last() != LETTER_Z {
        assert(increment(s).drop_last() =~= p);
        assert(is_lowercase(increment(s))) by {
            assert forall|i: int| 0 <= i < increment(s).len() implies LETTER_A <= #[trigger] increment(s)[i] <= LETTER_Z by {
                if i < p.len() {
                    assert(increment(s)[i] == s[i]);
                }
            }
        }
    } else {
        assert(!is_exhausted(p)) by {
            let k = choose|k: int| 0 <= k < s.len() && s[k] != LETTER_Z;
            assert(k < p.len());
            assert(p[k] == s[k]);
        }
        assert(is_lowercase(p)) by {
            assert forall|i: int| 0 <= i < p.len() implies LETTER_A <= #[trigger] p[i] <= LETTER_Z by {
                assert(p[i] == s[i]);
            }
        }
        lemma_increment(p);
        assert(increment(s).drop_last() =~= increment(p));
        assert(is_lowercase(increment(s))) by {
            assert forall|i: int| 0 <= i < increment(s).len() implies LETTER_A <= #[trigger] increment(s)[i] <= LETTER_Z by {
                if i < p.len() {
                    assert(increment(s)[i] == increment(p)[i]);
                }
            }
        }
    }
}

/// Two lowercase sequences of one length with the same value are equal.
pub proof fn lemma_value_injective(a: Seq<u8>, b: Seq<u8>)
    requires
        is_lowercase(a),
        is_lowercase(b),
        a.len() == b.len(),
        token_value(a) == token_value(b),
    ensures
        a == b,
    decreases a.len(),
{
    if a.len() > 0 {
        let (pa, pb) = (a.drop_last(), b.drop_last());
        assert(is_lowercase(pa)) by {
            assert forall|i: int| 0 <= i < pa.len() implies LETTER_A <= #[trigger] pa[i] <= LETTER_Z by {
                assert(pa[i] == a[i]);
            }
        }
        assert(is_lowercase(pb)) by {
            assert forall|i: int| 0 <= i < pb.len() implies LETTER_A <= #[trigger] pb[i] <= LETTER_Z by {
                assert(pb[i] == b[i]);
            }
        }
        let (va, vb) = (token_value(pa), token_value(pb));
        let (da, db) = ((a.last() - LETTER_A) as int, (b.last() - LETTER_A) as int);
        assert(a[a.len() - 1] == a.last() && b[b.len() - 1] == b.last());
        assert(0 <= da < 26 && 0 <= db < 26);
        assert(va * 26 + da == vb * 26 + db);
        assert(va == vb && da == db) by (nonlinear_arith)
            requires
                va * 26 + da == vb * 26 + db,
                0 <= da < 26,
                0 <= db < 26,
        ;
        lemma_value_injective(pa, pb);
        assert(a =~= pa.push(a.last()));
        assert(b =~= pb.push(b.last()));
    }
}

/// Among lowercase sequences of one length, a smaller value comes first in
/// lexicographic order.
pub proof fn lemma_value_orders_lex(a: Seq<u8>, b: Seq<u8>)
    requires
        is_lowercase(a),
        is_lowercase(b),
        a.len() == b.len(),
        token_value(a) < token_value(b),
    ensures
        lex_less(a, b),
    decreases a.len(),
{
    if a.len() == 0 {
    } else {
        let (pa, pb) = (a.drop_last(), b.drop_last());
        assert(is_lowercase(pa)) by {
            assert forall|i: int| 0 <= i < pa.len() implies LETTER_A <= #[trigger] pa[i] <= LETTER_Z by {
                assert(pa[i] == a[i]);
            }
        }
        assert(is_lowercase(pb)) by {
            assert forall|i: int| 0 <= i < pb.len() implies LETTER_A <= #[trigger] pb[i] <= LETTER_Z by {
                assert(pb[i] == b[i]);
            }
        }
        let (va, vb) = (token_value(pa), token_value(pb));
        let (da, db) = ((a.last() - LETTER_A) as int, (b.last() - LETTER_A) as int);
        assert(a[a.len() - 1] == a.last() && b[b.len() - 1] == b.last());
        assert(0 <= da < 26 && 0 <= db < 26);
        assert(va * 26 + da < vb * 26 + db);
        assert(va < vb || (va == vb && da < db)) by (nonlinear_arith)
            requires
                va * 26 + da < vb * 26 + db,
                0 <= da < 26,
                0 <= db < 26,
        ;
        if va < vb {
            lemma_value_orders_lex(pa, pb);
        } else {
            lemma_value_injective(pa, pb);
        }
    }
}

/// Allocating `n` tokens in a row from a lowercase counter that does not run out
/// on the way gives tokens of the counter's length in strictly increasing
/// lexicographic order, hence all distinct.
pub proof fn lemma_allocations_increase(s: Seq<u8>, n: nat)
    requires
        is_lowercase(s),
        forall|k: nat| k + 1 < n ==> !is_exhausted(#[trigger] advance(s, k)),
    ensures
        forall|k: nat| k < n ==> (#[trigger] advance(s, k)).len() == s.len() && is_lowercase(advance(s, k))
            && token_value(advance(s, k)) == token_value(s) + k,
        forall|i: nat, j: nat| i < j < n ==> lex_less(#[trigger] advance(s, i), #[trigger] advance(s, j)),
        forall|i: nat, j: nat| i < j < n ==> advance(s, i) != advance(s, j),
{
    assert forall|k: nat| k < n implies (#[trigger] advance(s, k)).len() == s.len() && is_lowercase(advance(s, k))
        && token_value(advance(s, k)) == token_value(s) + k by {
        lemma_advance(s, k, n);
    }
    assert forall|i: nat, j: nat| i < j < n implies lex_less(#[trigger] advance(s, i), #[trigger] advance(s, j))
        && advance(s, i) != advance(s, j) by {
        lemma_advance(s, i, n);
        lemma_advance(s, j, n);
        lemma_value_orders_lex(advance(s, i), advance(s, j));
    }
}

/// After `k` steps that do not run out, the counter's value has grown by `k`.
pub proof fn lemma_advance(s: Seq<u8>, k: nat, n: nat)
    requires
        is_lowercase(s),
        forall|m: nat| m + 1 < n ==> !is_exhausted(#[trigger] advance(s, m)),
        k < n,
    ensures
        advance(s, k).len() == s.len(),
        is_lowercase(advance(s, k)),
        token_value(advance(s, k)) == token_value(s) + k,
    decreases k,
{
    if k > 0 {
        let m = (k - 1) as nat;
        lemma_advance(s, m, n);
        assert(!is_exhausted(advance(s, m)));
        lemma_increment(advance(s, m));
    }
}

/// The counter does not run out within its next `n` steps.
pub open spec fn tokens_suffice(s: Seq<u8>, n: nat) -> bool {
    forall|k: nat| k < n ==> !is_exhausted(#[trigger] advance(s, k))
}

/// The token `t` was handed out before the counter reached `cursor`: it spells
/// a lowercase value of the same length below the counter's.
pub open spec fn issued_before(t: Seq<char>, cursor: Seq<u8>) -> bool {
    exists|b: Seq<u8>|
        #[trigger] ascii_chars(b) == t && b.len() == cursor.len() && is_lowercase(b) && token_value(b)
            < token_value(cursor)
}

/// Distinct byte strings give distinct character strings.
pub proof fn lemma_ascii_injective(a: Seq<u8>, b: Seq<u8>)
    requires
        ascii_chars(a) == ascii_chars(b),
    ensures
        a == b,
{
    assert(a.len() == ascii_chars(a).len() && b.len() == ascii_chars(b).len());
    assert forall|i: int| 0 <= i < a.len() implies a[i] == b[i] by {
        assert(ascii_chars(a)[i] == a[i] as char);
        assert(ascii_chars(b)[i] == b[i] as char);
    }
    assert(a =~= b);
}

/// A token handed out before the counter reached `cursor` is not the
/// counter's value then or at any later step.
pub proof fn lemma_issued_before_differs(t: Seq<char>, cursor: Seq<u8>, later: Seq<u8>)
    requires
        issued_before(t, cursor),
        token_value(cursor) <= token_value(later),
    ensures
        t != ascii_chars(later),
{
    let b = choose|b: Seq<u8>|
        #[trigger] ascii_chars(b) == t && b.len() == cursor.len() && is_lowercase(b) && token_value(b)
            < token_value(cursor);
    if t == ascii_chars(later) {
        lemma_ascii_injective(b, later);
    }
}

/// Being handed out before is kept as the counter grows.
pub proof fn lemma_issued_before_grows(t: Seq<char>, cursor: Seq<u8>, later: Seq<u8>)
    requires
        issued_before(t, cursor),
        token_value(cursor) <= token_value(later),
        later.len() == cursor.len(),
    ensures
        issued_before(t, later),
{
    let b = choose|b: Seq<u8>|
        #[trigger] ascii_chars(b) == t && b.len() == cursor.len() && is_lowercase(b) && token_value(b)
            < token_value(cursor);
    assert(ascii_chars(b) == t);
}

/// The counter of a fresh allocator: eight `a`s.
pub open spec fn first_token() -> Seq<u8> {
    Seq::new(8, |i: int| LETTER_A)
}

/// A counter of only `z`s spells the largest value of its length.
proof fn lemma_exhausted_value(s: Seq<u8>)
    requires
        is_exhausted(s),
    ensures
        token_value(s) == pow(26, s.len()) - 1,
    decreases s.len(),
{
    reveal(pow);
    if s.len() > 0 {
        let p = s.drop_last();
        assert(is_exhausted(p)) by {
            assert forall|i: int| 0 <= i < p.len() implies #[trigger] p[i] == LETTER_Z by {
                assert(p[i] == s[i]);
            }
        }
        lemma_exhausted_value(p);
        assert(s.last() == s[s.len() - 1]);
        assert(pow(26, s.len()) == 26 * pow(26, (s.len() - 1) as nat));
    }
}

/// A counter of only `a`s spells zero.
proof fn lemma_first_value(s: Seq<u8>)
    requires
        forall|i: int| 0 <= i < s.len() ==> #[trigger] s[i] == LETTER_A,
    ensures
        token_value(s) == 0,
    decreases s.len(),
{
    if s.len() > 0 {
        let p = s.drop_last();
        assert forall|i: int| 0 <= i < p.len() implies #[trigger] p[i] == LETTER_A by {
            assert(p[i] == s[i]);
        }
        lemma_first_value(p);
        assert(s.last() == s[s.len() - 1]);
    }
}

proof fn lemma_fresh_advance(k: nat)
    requires
        k < pow(26, 8),
    ensures
        advance(first_token(), k).len() == 8,
        is_lowercase(advance(first_token(), k)),
        token_value(advance(first_token(), k)) == k,
        k + 1 < pow(26, 8) ==> !is_exhausted(advance(first_token(), k)),
    decreases k,
{
    let s = advance(first_token(), k);
    if k == 0 {
        lemma_first_value(first_token());
    } else {
        lemma_fresh_advance((k - 1) as nat);
        lemma_increment(advance(first_token(), (k - 1) as nat));
    }
    if is_exhausted(s) {
        lemma_exhausted_value(s);
    }
}

/// From a fresh allocator, any number of allocations up to the size of the
/// token space, 26 to the 8th, gives eight-letter tokens in strictly
/// increasing lexicographic order, hence all distinct.
pub proof fn lemma_fresh_allocations_increase(n: nat)
    requires
        n <= pow(26, 8),
    ensures
        forall|k: nat| k < n ==> (#[trigger] advance(first_token(), k)).len() == 8 && token_value(
            advance(first_token(), k),
        ) == k,
        forall|i: nat, j: nat|
            i < j < n ==> lex_less(#[trigger] advance(first_token(), i), #[trigger] advance(first_token(), j)),
        forall|i: nat, j: nat| i < j < n ==> advance(first_token(), i) != advance(first_token(), j),
{
    assert forall|k: nat| k + 1 < n implies !is_exhausted(#[trigger] advance(first_token(), k)) by {
        lemma_fresh_advance(k);
    }
    assert(is_lowercase(first_token()));
    lemma_first_value(first_token());
    lemma_allocations_increase(first_token(), n);
}

/// Shape of one step when `k` is the last letter that is not `z`.
proof fn lemma_increment_at(s: Seq<u8>, k: int)
    requires
        0 <= k < s.len(),
        s[k] != LETTER_Z,
        forall|j: int| k < j < s.len() ==> #[trigger] s[j] == LETTER_Z,
    ensures
        increment(s) =~= s.subrange(0, k).push((s[k] + 1) as u8) + Seq::new(
            (s.len() - k - 1) as nat,
            |j: int| LETTER_A,
        ),
    decreases s.len(),
{
    if k == s.len() - 1 {
    } else {
        let p = s.drop_last();
        assert(s.last() == s[s.len() - 1]);
        lemma_increment_at(p, k);
    }
}

/// Relies on String::from_utf8: ASCII bytes decode to the same characters.
#[verifier::external_body]
fn string_from_ascii(bytes: Vec<u8>) -> (r: String)
    requires
        forall|i: int| 0 <= i < bytes@.len() ==> #[trigger] bytes@[i] < 128,
    ensures
        r@ == ascii_chars(bytes@),
{
    String::from_utf8(bytes).unwrap()
}

/// Returns the counter's current value as a string and advances the counter by one.
pub fn next_invite_token(invite_token_tracker: &mut Vec<u8>) -> (r: String)
    requires
        old(invite_token_tracker)@.len() > 0,
        is_lowercase(old(invite_token_tracker)@),
        !is_exhausted(old(invite_token_tracker)@),
    ensures
        r@ == ascii_chars(old(invite_token_tracker)@),
        final(invite_token_tracker)@ == increment(old(invite_token_tracker)@),
{
    let ghost s = invite_token_tracker@;
    let mut current: Vec<u8> = Vec::new();
    let mut i: usize = 0;
    while i < invite_token_tracker.len()
        invariant
            invite_token_tracker@ == s,
            i <= s.len(),
            current@ == s.subrange(0, i as int),
        decreases s.len() - i,
    {
        current.push(invite_token_tracker[i]);
        i = i + 1;
    }
    assert(current@ =~= s);
    let mut index: usize = invite_token_tracker.len() - 1;
    loop
        invariant_except_break
            index < s.len(),
            invite_token_tracker@.len() == s.len(),
            forall|j: int| 0 <= j <= index ==> #[trigger] invite_token_tracker@[j] == s[j],
            forall|j: int| index < j < s.len() ==> #[trigger] invite_token_tracker@[j] == LETTER_A,
            forall|j: int| index < j < s.len() ==> #[trigger] s[j] == LETTER_Z,
        invariant
            is_lowercase(s),
            !is_exhausted(s),
        ensures
            invite_token_tracker@ == increment(s),
        decreases index,
    {
        if invite_token_tracker[index] == LETTER_Z {
            if index == 0 {
                assert(is_exhausted(s)) by {
                    assert forall|j: int| 0 <= j < s.len() implies #[trigger] s[j] == LETTER_Z by {
                        if j == 0 {
                            assert(invite_token_tracker@[0] == s[0]);
                        }
                    }
                }
                assert(false);
            }
            invite_token_tracker.set(index, LETTER_A);
            index = index - 1;
        } else {
            let b = invite_token_tracker[index];
            proof {
                assert(b == s[index as int]);
                assert(b < LETTER_Z) by {
                    assert(LETTER_A <= s[index as int] <= LETTER_Z);
                }
            }
            invite_token_tracker.set(index, b + 1);
            proof {
                lemma_increment_at(s, index as int);
                assert(invite_token_tracker@ =~= increment(s));
            }
            break;
        }
    }
    proof {
        assert forall|i: int| 0 <= i < current@.len() implies #[trigger] current@[i] < 128 by {
            assert(LETTER_A <= s[i] <= LETTER_Z);
        }
    }
    string_from_ascii(current)
}

} // verus!
