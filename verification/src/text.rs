//! Character-sequence specifications and small verified string utilities
//! shared by the date formatter, the amount parser and the row codec.

use vstd::prelude::*;

verus! {

// ---------------------------------------------------------------------------
// Digits
// ---------------------------------------------------------------------------

/// The decimal digit characters '0' through '9'.
pub open spec fn is_digit(c: char) -> bool {
    48 <= c as u32 <= 57
}

/// Numeric value of a decimal digit character.
pub open spec fn digit_val(c: char) -> int {
    c as u32 - 48
}

pub open spec fn all_digits(s: Seq<char>) -> bool {
    forall|i: int| 0 <= i < s.len() ==> is_digit(#[trigger] s[i])
}

/// The number denoted by a sequence of decimal digits, most significant first.
pub open spec fn digits_val(s: Seq<char>) -> int
    decreases s.len(),
{
    if s.len() == 0 {
        0
    } else {
        digits_val(s.drop_last()) * 10 + digit_val(s.last())
    }
}

pub open spec fn pow10(n: nat) -> int
    decreases n,
{
    if n == 0 {
        1
    } else {
        10 * pow10((n - 1) as nat)
    }
}

pub proof fn lemma_digits_val_bound(s: Seq<char>)
    requires
        all_digits(s),
    ensures
        0 <= digits_val(s) < pow10(s.len()),
    decreases s.len(),
{
    if s.len() > 0 {
        assert(all_digits(s.drop_last())) by {
            assert(forall|i: int|
                0 <= i < s.len() - 1 ==> #[trigger] s.drop_last()[i] == s[i]);
        }
        lemma_digits_val_bound(s.drop_last());
        assert(is_digit(s.last()));
    }
}

/// The canonical decimal rendering of a non-negative number, without
/// leading zeros (a single '0' for zero).
pub open spec fn dec_chars(n: nat) -> Seq<char>
    decreases n,
{
    if n < 10 {
        seq![digit_char(n as int)]
    } else {
        dec_chars(n / 10).push(digit_char((n % 10) as int))
    }
}

pub open spec fn digit_char(d: int) -> char {
    if d == 0 {
        '0'
    } else if d == 1 {
        '1'
    } else if d == 2 {
        '2'
    } else if d == 3 {
        '3'
    } else if d == 4 {
        '4'
    } else if d == 5 {
        '5'
    } else if d == 6 {
        '6'
    } else if d == 7 {
        '7'
    } else if d == 8 {
        '8'
    } else {
        '9'
    }
}

// ---------------------------------------------------------------------------
// Trusted string primitives
// ---------------------------------------------------------------------------

/// Relies on std's String::push: appends exactly one character.
#[verifier::external_body]
pub fn push_char(s: &mut String, c: char)
    ensures
        final(s)@ == old(s)@.push(c),
{
    s.push(c);
}

/// Appends the decimal rendering of `n` to `s`.
pub fn append_decimal(s: &mut String, n: u64)
    ensures
        final(s)@ == old(s)@ + dec_chars(n as nat),
    decreases n,
{
    if n >= 10 {
        append_decimal(s, n / 10);
    }
    let d: u64 = n % 10;
    let c: char = match d {
        0 => '0',
        1 => '1',
        2 => '2',
        3 => '3',
        4 => '4',
        5 => '5',
        6 => '6',
        7 => '7',
        8 => '8',
        _ => '9',
    };
    assert(c == digit_char(d as int));
    push_char(s, c);
    proof {
        if n < 10 {
            assert(old(s)@ + dec_chars(n as nat) =~= old(s)@.push(c));
        } else {
            assert(old(s)@ + dec_chars(n as nat) =~= (old(s)@ + dec_chars(
                (n / 10) as nat,
            )).push(c));
        }
    }
}

// ---------------------------------------------------------------------------
// Lexicographic comparison by unicode scalar value
// ---------------------------------------------------------------------------

/// Three-way lexicographic comparison of character sequences:
/// negative when `a` sorts before `b`, zero when equal, positive after.
pub open spec fn str_cmp(a: Seq<char>, b: Seq<char>) -> int
    decreases a.len(),
{
    if a.len() == 0 && b.len() == 0 {
        0
    } else if a.len() == 0 {
        -1
    } else if b.len() == 0 {
        1
    } else if (a[0] as u32) < (b[0] as u32) {
        -1
    } else if (a[0] as u32) > (b[0] as u32) {
        1
    } else {
        str_cmp(a.drop_first(), b.drop_first())
    }
}

/// Casting a `char` to `u32` is injective.
proof fn lemma_char_cast_inj(a: char, b: char)
    requires
        a as u32 == b as u32,
    ensures
        a == b,
{
    vstd::utf8::char_u32_cast(a, a as u32);
    vstd::utf8::char_u32_cast(b, b as u32);
}

pub proof fn lemma_str_cmp_eq(a: Seq<char>, b: Seq<char>)
    ensures
        str_cmp(a, b) == 0 <==> a == b,
    decreases a.len(),
{
    if a.len() != 0 && b.len() != 0 && (a[0] as u32) == (b[0] as u32) {
        lemma_char_cast_inj(a[0], b[0]);
        lemma_str_cmp_eq(a.drop_first(), b.drop_first());
        if str_cmp(a, b) == 0 {
            assert(a =~= seq![a[0]] + a.drop_first());
            assert(b =~= seq![b[0]] + b.drop_first());
        } else {
            if a == b {
                assert(a.drop_first() =~= b.drop_first());
            }
        }
    } else {
        if a.len() == 0 && b.len() == 0 {
            assert(a =~= b);
        }
    }
}

pub proof fn lemma_str_cmp_antisym(a: Seq<char>, b: Seq<char>)
    ensures
        str_cmp(a, b) == -str_cmp(b, a),
    decreases a.len(),
{
    if a.len() != 0 && b.len() != 0 && (a[0] as u32) == (b[0] as u32) {
        lemma_str_cmp_antisym(a.drop_first(), b.drop_first());
    }
}

pub proof fn lemma_str_cmp_trans_le(a: Seq<char>, b: Seq<char>, c: Seq<char>)
    requires
        str_cmp(a, b) <= 0,
        str_cmp(b, c) <= 0,
    ensures
        str_cmp(a, c) <= 0,
    decreases a.len(),
{
    if a.len() != 0 && b.len() != 0 && c.len() != 0 && (a[0] as u32) == (b[0] as u32) && (
    b[0] as u32) == (c[0] as u32) {
        lemma_str_cmp_trans_le(a.drop_first(), b.drop_first(), c.drop_first());
    }
}

/// Three-way comparison of two strings by unicode scalar value.
pub fn compare_str(a: &str, b: &str) -> (c: i8)
    ensures
        c as int == str_cmp(a@, b@),
{
    let a_len: usize = a.unicode_len();
    let b_len: usize = b.unicode_len();
    let mut i: usize = 0;
    proof {
        assert(a@.skip(0) =~= a@);
        assert(b@.skip(0) =~= b@);
    }
    loop
        invariant
            i <= a_len,
            i <= b_len,
            a_len == a@.len(),
            b_len == b@.len(),
            str_cmp(a@, b@) == str_cmp(a@.skip(i as int), b@.skip(i as int)),
        decreases a_len - i,
    {
        if i == a_len || i == b_len {
            if a_len == b_len {
                return 0;
            } else if i == a_len {
                return -1;
            } else {
                return 1;
            }
        }
        let ca: char = a.get_char(i);
        let cb: char = b.get_char(i);
        let ua: u32 = ca as u32;
        let ub: u32 = cb as u32;
        if ua < ub {
            return -1;
        } else if ua > ub {
            return 1;
        }
        proof {
            assert(a@.skip(i as int)[0] == ca);
            assert(b@.skip(i as int)[0] == cb);
            assert(a@.skip(i as int).drop_first() =~= a@.skip(i + 1));
            assert(b@.skip(i as int).drop_first() =~= b@.skip(i + 1));
        }
        i = i + 1;
    }
}

// ---------------------------------------------------------------------------
// Substring containment
// ---------------------------------------------------------------------------

pub open spec fn is_substring_at(s: Seq<char>, p: Seq<char>, i: int) -> bool {
    0 <= i && i + p.len() <= s.len() && s.subrange(i, i + p.len() as int) == p
}

pub open spec fn contains_seq(s: Seq<char>, p: Seq<char>) -> bool {
    exists|i: int| is_substring_at(s, p, i)
}

/// Whether `p` occurs in `s` as a contiguous run of characters.
pub fn contains_substring(s: &str, p: &str) -> (r: bool)
    ensures
        r == contains_seq(s@, p@),
{
    let s_len: usize = s.unicode_len();
    let p_len: usize = p.unicode_len();
    if p_len > s_len {
        proof {
            assert(forall|i: int| !is_substring_at(s@, p@, i));
        }
        return false;
    }
    if p_len == 0 {
        proof {
            assert(s@.subrange(0, 0) =~= p@);
            assert(is_substring_at(s@, p@, 0));
        }
        return true;
    }
    let last_start: usize = s_len - p_len;
    for i in 0..(last_start + 1)
        invariant
            s_len == s@.len(),
            p_len == p@.len(),
            0 < p_len <= s_len,
            last_start == s_len - p_len,
            forall|k: int| 0 <= k < i ==> !is_substring_at(s@, p@, k),
    {
        let mut j: usize = 0;
        let mut matched: bool = true;
        while j < p_len
            invariant
                s_len == s@.len(),
                p_len == p@.len(),
                i + p_len <= s_len,
                j <= p_len,
                matched ==> forall|k: int| 0 <= k < j ==> s@[i + k] == p@[k],
                !matched ==> exists|k: int| 0 <= k < p_len && s@[i + k] != p@[k],
            ensures
                matched ==> forall|k: int| 0 <= k < p_len ==> s@[i + k] == p@[k],
                !matched ==> exists|k: int| 0 <= k < p_len && s@[i + k] != p@[k],
            decreases p_len - j,
        {
            if s.get_char(i + j) != p.get_char(j) {
                matched = false;
                break;
            }
            j = j + 1;
        }
        if matched {
            proof {
                assert forall|k: int| 0 <= k < p@.len() implies s@.subrange(
                    i as int,
                    i + p@.len(),
                )[k] == p@[k] by {
                    assert(s@[i + k] == p@[k]);
                }
                assert(s@.subrange(i as int, i + p@.len()) =~= p@);
                assert(is_substring_at(s@, p@, i as int));
            }
            return true;
        }
        proof {
            let k = choose|k: int| 0 <= k < p@.len() && s@[i + k] != p@[k];
            assert(s@.subrange(i as int, i + p@.len())[k] == s@[i + k]);
            assert(!is_substring_at(s@, p@, i as int));
        }
    }
    proof {
        assert(forall|k: int| is_substring_at(s@, p@, k) ==> 0 <= k <= s@.len() - p@.len());
    }
    false
}

// ---------------------------------------------------------------------------
// First occurrence of a character
// ---------------------------------------------------------------------------

/// Index of the first occurrence of `t` in `s`, or -1 when absent.
pub open spec fn first_index_of(s: Seq<char>, t: char) -> int
    decreases s.len(),
{
    if s.len() == 0 {
        -1
    } else if s[0] == t {
        0
    } else {
        let r = first_index_of(s.drop_first(), t);
        if r < 0 {
            -1
        } else {
            r + 1
        }
    }
}

pub proof fn lemma_first_index_props(s: Seq<char>, t: char)
    ensures
        first_index_of(s, t) < 0 ==> forall|i: int| 0 <= i < s.len() ==> s[i] != t,
        first_index_of(s, t) >= 0 ==> {
            &&& first_index_of(s, t) < s.len()
            &&& s[first_index_of(s, t)] == t
            &&& forall|i: int| 0 <= i < first_index_of(s, t) ==> s[i] != t
        },
    decreases s.len(),
{
    if s.len() != 0 && s[0] != t {
        lemma_first_index_props(s.drop_first(), t);
        let r = first_index_of(s.drop_first(), t);
        if r < 0 {
            assert forall|i: int| 0 <= i < s.len() implies s[i] != t by {
                if i > 0 {
                    assert(s.drop_first()[i - 1] == s[i]);
                }
            }
        } else {
            assert(s[r + 1] == s.drop_first()[r]);
            assert forall|i: int| 0 <= i < r + 1 implies s[i] != t by {
                if i > 0 {
                    assert(s.drop_first()[i - 1] == s[i]);
                }
            }
        }
    }
}

pub proof fn lemma_first_index_at(s: Seq<char>, t: char, k: int)
    requires
        0 <= k < s.len(),
        s[k] == t,
        forall|i: int| 0 <= i < k ==> s[i] != t,
    ensures
        first_index_of(s, t) == k,
    decreases s.len(),
{
    if k > 0 {
        assert(forall|i: int|
            0 <= i < k - 1 ==> #[trigger] s.drop_first()[i] == s[i + 1]);
        lemma_first_index_at(s.drop_first(), t, k - 1);
    }
}

// ---------------------------------------------------------------------------
// Joining and splitting on a separator character
// ---------------------------------------------------------------------------

/// The fields of a row joined into one sequence, separated by `sep`.
pub open spec fn join_fields(fields: Seq<Seq<char>>, sep: char) -> Seq<char>
    decreases fields.len(),
{
    if fields.len() == 0 {
        Seq::empty()
    } else if fields.len() == 1 {
        fields[0]
    } else {
        fields[0] + seq![sep] + join_fields(fields.drop_first(), sep)
    }
}

/// The maximal runs of characters of `s` between occurrences of `sep`;
/// always at least one field, possibly empty.
pub open spec fn split_fields(s: Seq<char>, sep: char) -> Seq<Seq<char>>
    decreases s.len(),
{
    if s.len() == 0 {
        seq![Seq::<char>::empty()]
    } else if s[0] == sep {
        seq![Seq::<char>::empty()] + split_fields(s.drop_first(), sep)
    } else {
        let rest = split_fields(s.drop_first(), sep);
        seq![seq![s[0]] + rest[0]] + rest.drop_first()
    }
}

/// Appending one more field to a non-empty row extends the join with a
/// separator and that field.
pub proof fn lemma_join_snoc(fields: Seq<Seq<char>>, x: Seq<char>, sep: char)
    ensures
        join_fields(fields.push(x), sep) == if fields.len() == 0 {
            x
        } else {
            join_fields(fields, sep) + seq![sep] + x
        },
    decreases fields.len(),
{
    if fields.len() == 0 {
        assert(fields.push(x)[0] =~= x);
    } else if fields.len() == 1 {
        assert(fields.push(x).drop_first() =~= seq![x]);
        assert(join_fields(seq![x], sep) == x);
        assert(join_fields(fields, sep) == fields[0]);
    } else {
        assert(fields.push(x).drop_first() =~= fields.drop_first().push(x));
        lemma_join_snoc(fields.drop_first(), x, sep);
        assert(join_fields(fields.push(x), sep) =~= join_fields(fields, sep) + seq![sep] + x);
    }
}

proof fn lemma_split_fields_nonempty(s: Seq<char>, sep: char)
    ensures
        split_fields(s, sep).len() >= 1,
    decreases s.len(),
{
    if s.len() != 0 {
        lemma_split_fields_nonempty(s.drop_first(), sep);
    }
}

/// Splitting `a + s` where `a` is free of the separator prepends `a`
/// to the first field of the split of `s`.
proof fn lemma_split_prepend_clean(a: Seq<char>, s: Seq<char>, sep: char)
    requires
        forall|i: int| 0 <= i < a.len() ==> a[i] != sep,
    ensures
        split_fields(a + s, sep) == seq![a + split_fields(s, sep)[0]] + split_fields(
            s,
            sep,
        ).drop_first(),
    decreases a.len(),
{
    lemma_split_fields_nonempty(s, sep);
    if a.len() == 0 {
        assert(a + s =~= s);
        assert(a + split_fields(s, sep)[0] =~= split_fields(s, sep)[0]);
        assert(seq![split_fields(s, sep)[0]] + split_fields(s, sep).drop_first() =~= split_fields(
            s,
            sep,
        ));
    } else {
        assert((a + s)[0] == a[0]);
        assert((a + s).drop_first() =~= a.drop_first() + s);
        assert(forall|i: int|
            0 <= i < a.drop_first().len() ==> #[trigger] a.drop_first()[i] != sep);
        lemma_split_prepend_clean(a.drop_first(), s, sep);
        let rest = split_fields(a.drop_first() + s, sep);
        assert(seq![a[0]] + rest[0] =~= a + split_fields(s, sep)[0]);
        assert(rest.drop_first() =~= split_fields(s, sep).drop_first());
        assert(split_fields(a + s, sep) =~= seq![a + split_fields(s, sep)[0]] + split_fields(
            s,
            sep,
        ).drop_first());
    }
}

/// Joining the fields of a row with a separator that occurs in none of
/// them and splitting the result on that separator gives the row back.
pub proof fn lemma_join_split_roundtrip(fields: Seq<Seq<char>>, sep: char)
    requires
        fields.len() >= 1,
        forall|i: int| 0 <= i < fields.len() ==> !(#[trigger] fields[i]).contains(sep),
    ensures
        split_fields(join_fields(fields, sep), sep) == fields,
    decreases fields.len(),
{
    assert forall|i: int, j: int|
        0 <= i < fields.len() && 0 <= j < fields[i].len() implies #[trigger] fields[i][j]
        != sep by {
        if fields[i][j] == sep {
            assert(fields[i].contains(sep));
        }
    }
    if fields.len() == 1 {
        let f0 = fields[0];
        lemma_split_prepend_clean(f0, Seq::empty(), sep);
        assert(f0 + Seq::<char>::empty() =~= f0);
        assert(f0 + split_fields(Seq::empty(), sep)[0] =~= f0);
        assert(split_fields(f0, sep) =~= seq![f0]);
        assert(seq![f0] =~= fields);
    } else {
        let f0 = fields[0];
        let tail = join_fields(fields.drop_first(), sep);
        let x = seq![sep] + tail;
        assert(join_fields(fields, sep) =~= f0 + x);
        assert(x[0] == sep);
        assert(x.drop_first() =~= tail);
        assert(forall|i: int|
            0 <= i < fields.drop_first().len() ==> !(#[trigger] fields.drop_first()[i]).contains(
                sep,
            ));
        lemma_join_split_roundtrip(fields.drop_first(), sep);
        lemma_split_prepend_clean(f0, x, sep);
        assert(split_fields(x, sep) =~= seq![Seq::<char>::empty()] + fields.drop_first());
        assert(f0 + split_fields(x, sep)[0] =~= f0);
        assert(split_fields(x, sep).drop_first() =~= fields.drop_first());
        assert(split_fields(join_fields(fields, sep), sep) =~= fields);
    }
}

} // verus!
