//! Character-level scanning helpers: first occurrence of a character, runs
//! of digits or spaces, the fallback-scan specials, code fences, and the
//! value of a digit run. Each executable function is verified against a
//! recursive spec function of the same shape.

use vstd::prelude::*;

verus! {

/// Whether `c` is an ASCII decimal digit.
pub open spec fn is_digit(c: char) -> bool {
    48 <= c as u32 && c as u32 <= 57
}

/// The numeric value of a digit character.
pub open spec fn digit_val(c: char) -> int {
    c as u32 - 48
}

/// Whether `c` stops the fallback text scan: the toggle and construct
/// openers, the caret, the backslash, and the line break.
pub open spec fn is_special(c: char) -> bool {
    c == '*' || c == '`' || c == '~' || c == '_' || c == '/' || c == '$' || c == '^' || c == '\\'
        || c == '<' || c == '[' || c == '\n'
}

/// The first index `i >= from` with `s[i] == c`, or `s.len()` if none.
pub open spec fn find_at(s: Seq<char>, from: int, c: char) -> int
    decreases s.len() - from,
{
    if from < 0 {
        find_at(s, 0, c)
    } else if from >= s.len() {
        s.len() as int
    } else if s[from] == c {
        from
    } else {
        find_at(s, from + 1, c)
    }
}

/// The index just past the line that starts at `from`: the first newline at
/// or after `from`, or the end of the text.
pub open spec fn line_end(s: Seq<char>, from: int) -> int {
    find_at(s, from, '\n')
}

/// The first index `i >= from` where `s[i]` is not a digit, or `s.len()`.
pub open spec fn digits_end(s: Seq<char>, from: int) -> int
    decreases s.len() - from,
{
    if from < 0 {
        digits_end(s, 0)
    } else if from >= s.len() {
        s.len() as int
    } else if !is_digit(s[from]) {
        from
    } else {
        digits_end(s, from + 1)
    }
}

/// The first index `i >= from` where `s[i]` differs from `c`, or
/// `s.len()`: the end of the run of `c` that starts at `from`.
pub open spec fn run_end(s: Seq<char>, from: int, c: char) -> int
    decreases s.len() - from,
{
    if from < 0 {
        run_end(s, 0, c)
    } else if from >= s.len() {
        s.len() as int
    } else if s[from] != c {
        from
    } else {
        run_end(s, from + 1, c)
    }
}

/// The first index `i >= from` where `s[i]` is a special character, or
/// `s.len()`.
pub open spec fn special_end(s: Seq<char>, from: int) -> int
    decreases s.len() - from,
{
    if from < 0 {
        special_end(s, 0)
    } else if from >= s.len() {
        s.len() as int
    } else if is_special(s[from]) {
        from
    } else {
        special_end(s, from + 1)
    }
}

/// Whether a closing code fence stands at `i`: a newline followed by a line
/// that is exactly three backticks.
pub open spec fn fence_at(s: Seq<char>, i: int) -> bool {
    &&& 0 <= i
    &&& i + 4 <= s.len()
    &&& s[i] == '\n'
    &&& s[i + 1] == '`'
    &&& s[i + 2] == '`'
    &&& s[i + 3] == '`'
    &&& (i + 4 == s.len() || s[i + 4] == '\n')
}

/// The first index `i >= from` where a closing code fence stands, or
/// `s.len()` if none does.
pub open spec fn fence_end(s: Seq<char>, from: int) -> int
    decreases s.len() - from,
{
    if from < 0 {
        fence_end(s, 0)
    } else if from >= s.len() {
        s.len() as int
    } else if fence_at(s, from) {
        from
    } else {
        fence_end(s, from + 1)
    }
}

/// The value of a digit run, most significant digit first.
pub open spec fn digits_val(s: Seq<char>) -> int
    decreases s.len(),
{
    if s.len() == 0 {
        0
    } else {
        digits_val(s.drop_last()) * 10 + digit_val(s.last())
    }
}

/// Whether every character of `s` is a digit.
pub open spec fn all_digits(s: Seq<char>) -> bool {
    forall|i: int| 0 <= i < s.len() ==> is_digit(s[i])
}

/// Whether `c` spells the lower-case letter `l`, in either case.
pub open spec fn eq_ci(c: char, l: char) -> bool {
    c == l || c as u32 + 32 == l as u32
}

/// The word `inf`, in any letter case.
pub open spec fn is_inf_word(b: Seq<char>) -> bool {
    b.len() == 3 && eq_ci(b[0], 'i') && eq_ci(b[1], 'n') && eq_ci(b[2], 'f')
}

/// The word `infinity`, in any letter case.
pub open spec fn is_infinity_word(b: Seq<char>) -> bool {
    b.len() == 8 && eq_ci(b[0], 'i') && eq_ci(b[1], 'n') && eq_ci(b[2], 'f') && eq_ci(b[3], 'i')
        && eq_ci(b[4], 'n') && eq_ci(b[5], 'i') && eq_ci(b[6], 't') && eq_ci(b[7], 'y')
}

/// The word `nan`, in any letter case.
pub open spec fn is_nan_word(b: Seq<char>) -> bool {
    b.len() == 3 && eq_ci(b[0], 'n') && eq_ci(b[1], 'a') && eq_ci(b[2], 'n')
}

/// The text after an optional leading sign.
pub open spec fn after_sign(s: Seq<char>) -> Seq<char> {
    if s.len() >= 1 && (s[0] == '+' || s[0] == '-') {
        s.subrange(1, s.len() as int)
    } else {
        s
    }
}

/// Where the exponent marker stands in `b`: the first `e` or `E`, or the
/// length of `b` if there is none.
pub open spec fn exp_at(b: Seq<char>) -> int {
    let e1 = find_at(b, 0, 'e');
    let e2 = find_at(b, 0, 'E');
    let e = if e1 < e2 {
        e1
    } else {
        e2
    };
    if e < 0 {
        0
    } else if e > b.len() {
        b.len() as int
    } else {
        e
    }
}

/// `exp_at` lands on the first exponent marker, or on the end.
pub proof fn lemma_exp_at(b: Seq<char>)
    ensures
        0 <= exp_at(b) <= b.len(),
        exp_at(b) < b.len() ==> (b[exp_at(b)] == 'e' || b[exp_at(b)] == 'E'),
        forall|j: int| 0 <= j < exp_at(b) ==> b[j] != 'e' && b[j] != 'E',
{
    lemma_find_at(b, 0, 'e');
    lemma_find_at(b, 0, 'E');
}

/// A decimal mantissa: digits with at most one dot, starting with a digit;
/// or a dot followed by at least one digit.
pub open spec fn mantissa_ok(m: Seq<char>) -> bool {
    ||| {
        &&& m.len() >= 1
        &&& is_digit(m[0])
        &&& (forall|i: int| 0 <= i < m.len() ==> is_digit(m[i]) || m[i] == '.')
        &&& (forall|i: int, j: int| 0 <= i < j < m.len() && m[i] == '.' ==> m[j] != '.')
    }
    ||| {
        &&& m.len() >= 2
        &&& m[0] == '.'
        &&& (forall|i: int| 1 <= i < m.len() ==> is_digit(m[i]))
    }
}

/// An exponent: an optional sign followed by at least one digit.
pub open spec fn exponent_ok(ex: Seq<char>) -> bool {
    let d = after_sign(ex);
    d.len() >= 1 && all_digits(d)
}

/// Whether `s` reads as a number the way the image options accept one: an
/// optional sign, then either a decimal mantissa with an optional
/// exponent, or one of the infinity and not-a-number words in any letter
/// case.
pub open spec fn is_number_text(s: Seq<char>) -> bool {
    let b = after_sign(s);
    ||| is_inf_word(b)
    ||| is_infinity_word(b)
    ||| is_nan_word(b)
    ||| {
        let e = exp_at(b);
        &&& mantissa_ok(b.subrange(0, e))
        &&& (e == b.len() || exponent_ok(b.subrange(e + 1, b.len() as int)))
    }
}

/// `find_at` stays within bounds, lands on `c`, and skips no occurrence.
pub proof fn lemma_find_at(s: Seq<char>, from: int, c: char)
    requires
        0 <= from <= s.len(),
    ensures
        from <= find_at(s, from, c) <= s.len(),
        find_at(s, from, c) < s.len() ==> s[find_at(s, from, c)] == c,
        forall|j: int| from <= j < find_at(s, from, c) ==> s[j] != c,
    decreases s.len() - from,
{
    if from < s.len() && s[from] != c {
        lemma_find_at(s, from + 1, c);
    }
}

/// Searching from `from + k` in the whole text is searching from `k` in
/// the suffix that starts at `from`.
pub proof fn lemma_find_at_shift_gen(s: Seq<char>, from: int, k: int, c: char)
    requires
        0 <= from,
        0 <= k,
        from + k <= s.len(),
    ensures
        find_at(s, from + k, c) == from + find_at(s.subrange(from, s.len() as int), k, c),
    decreases s.len() - from - k,
{
    let suf = s.subrange(from, s.len() as int);
    if from + k == s.len() {
    } else if s[from + k] == c {
        assert(suf[k] == c);
    } else {
        assert(suf[k] != c);
        lemma_find_at_shift_gen(s, from, k + 1, c);
    }
}

/// Searching the suffix that starts at `from` is searching the whole text
/// from `from`, displaced by `from`.
pub proof fn lemma_find_at_shift(s: Seq<char>, from: int, c: char)
    requires
        0 <= from <= s.len(),
    ensures
        find_at(s, from, c) == from + find_at(s.subrange(from, s.len() as int), 0, c),
{
    lemma_find_at_shift_gen(s, from, 0, c);
}

/// `digits_end` stays within bounds, lands on a non-digit, and every
/// character before it from `from` on is a digit.
pub proof fn lemma_digits_end(s: Seq<char>, from: int)
    requires
        0 <= from <= s.len(),
    ensures
        from <= digits_end(s, from) <= s.len(),
        digits_end(s, from) < s.len() ==> !is_digit(s[digits_end(s, from)]),
        forall|j: int| from <= j < digits_end(s, from) ==> is_digit(s[j]),
    decreases s.len() - from,
{
    if from < s.len() && is_digit(s[from]) {
        lemma_digits_end(s, from + 1);
    }
}

/// `run_end` stays within bounds, lands past the run, and everything
/// before it from `from` on is the run's character.
pub proof fn lemma_run_end(s: Seq<char>, from: int, c: char)
    requires
        0 <= from <= s.len(),
    ensures
        from <= run_end(s, from, c) <= s.len(),
        run_end(s, from, c) < s.len() ==> s[run_end(s, from, c)] != c,
        forall|j: int| from <= j < run_end(s, from, c) ==> s[j] == c,
    decreases s.len() - from,
{
    if from < s.len() && s[from] == c {
        lemma_run_end(s, from + 1, c);
    }
}

/// `special_end` stays within bounds, lands on a special, and every
/// character before it from `from` on is ordinary.
pub proof fn lemma_special_end(s: Seq<char>, from: int)
    requires
        0 <= from <= s.len(),
    ensures
        from <= special_end(s, from) <= s.len(),
        special_end(s, from) < s.len() ==> is_special(s[special_end(s, from)]),
        forall|j: int| from <= j < special_end(s, from) ==> !is_special(s[j]),
    decreases s.len() - from,
{
    if from < s.len() && !is_special(s[from]) {
        lemma_special_end(s, from + 1);
    }
}

/// `fence_end` stays within bounds, lands on a fence, and skips none.
pub proof fn lemma_fence_end(s: Seq<char>, from: int)
    requires
        0 <= from <= s.len(),
    ensures
        from <= fence_end(s, from) <= s.len(),
        fence_end(s, from) < s.len() ==> fence_at(s, fence_end(s, from)),
        forall|j: int| from <= j < fence_end(s, from) ==> !fence_at(s, j),
    decreases s.len() - from,
{
    if from < s.len() && !fence_at(s, from) {
        lemma_fence_end(s, from + 1);
    }
}

/// The first occurrence of `c` in `s` at or after `from`, or the character
/// count of `s` if there is none.
pub fn find_char_at(s: &str, from: usize, c: char) -> (r: usize)
    requires
        from <= s@.len(),
    ensures
        r == find_at(s@, from as int, c),
{
    let n = s.unicode_len();
    let mut i = from;
    while i < n
        invariant
            from <= i <= n,
            n == s@.len(),
            find_at(s@, from as int, c) == find_at(s@, i as int, c),
        decreases n - i,
    {
        if s.get_char(i) == c {
            return i;
        }
        i = i + 1;
    }
    i
}

/// The first non-digit in `s` at or after `from`, or the character count.
pub fn digits_end_at(s: &str, from: usize) -> (r: usize)
    requires
        from <= s@.len(),
    ensures
        r == digits_end(s@, from as int),
{
    let n = s.unicode_len();
    let mut i = from;
    while i < n
        invariant
            from <= i <= n,
            n == s@.len(),
            digits_end(s@, from as int) == digits_end(s@, i as int),
        decreases n - i,
    {
        let u = s.get_char(i) as u32;
        if !(48 <= u && u <= 57) {
            return i;
        }
        i = i + 1;
    }
    i
}

/// The end of the run of `c` in `s` that starts at `from`.
pub fn run_end_at(s: &str, from: usize, c: char) -> (r: usize)
    requires
        from <= s@.len(),
    ensures
        r == run_end(s@, from as int, c),
{
    let n = s.unicode_len();
    let mut i = from;
    while i < n
        invariant
            from <= i <= n,
            n == s@.len(),
            run_end(s@, from as int, c) == run_end(s@, i as int, c),
        decreases n - i,
    {
        if s.get_char(i) != c {
            return i;
        }
        i = i + 1;
    }
    i
}

/// The first special character in `s` at or after `from`, or the character
/// count.
pub fn special_end_at(s: &str, from: usize) -> (r: usize)
    requires
        from <= s@.len(),
    ensures
        r == special_end(s@, from as int),
{
    let n = s.unicode_len();
    let mut i = from;
    while i < n
        invariant
            from <= i <= n,
            n == s@.len(),
            special_end(s@, from as int) == special_end(s@, i as int),
        decreases n - i,
    {
        let c = s.get_char(i);
        if c == '*' || c == '`' || c == '~' || c == '_' || c == '/' || c == '$' || c == '^'
            || c == '\\' || c == '<' || c == '[' || c == '\n' {
            return i;
        }
        i = i + 1;
    }
    i
}

/// The first closing code fence in `s` at or after `from`, or the character
/// count.
pub fn fence_end_at(s: &str, from: usize) -> (r: usize)
    requires
        from <= s@.len(),
    ensures
        r == fence_end(s@, from as int),
{
    let n = s.unicode_len();
    let mut i = from;
    while i < n
        invariant
            from <= i <= n,
            n == s@.len(),
            fence_end(s@, from as int) == fence_end(s@, i as int),
        decreases n - i,
    {
        if s.get_char(i) == '\n' && n - i >= 4 && s.get_char(i + 1) == '`' && s.get_char(i + 2)
            == '`' && s.get_char(i + 3) == '`' && (n - i == 4 || s.get_char(i + 4) == '\n') {
            assert(fence_at(s@, i as int));
            return i;
        }
        assert(!fence_at(s@, i as int));
        i = i + 1;
    }
    i
}

/// A copy of the characters of `s` from `from` to `to`.
pub fn substr(s: &str, from: usize, to: usize) -> (r: String)
    requires
        from <= to <= s@.len(),
    ensures
        r@ == s@.subrange(from as int, to as int),
{
    let piece = s.substring_char(from, to);
    String::from_str(piece)
}

/// A run of digits has a non-negative value.
pub proof fn lemma_digits_val_nonneg(s: Seq<char>)
    requires
        all_digits(s),
    ensures
        digits_val(s) >= 0,
    decreases s.len(),
{
    if s.len() > 0 {
        assert(all_digits(s.drop_last()));
        lemma_digits_val_nonneg(s.drop_last());
    }
}

/// A digit run's value only grows when the run grows to the right.
pub proof fn lemma_digits_val_prefix(s: Seq<char>, k: int)
    requires
        all_digits(s),
        0 <= k <= s.len(),
    ensures
        digits_val(s) >= digits_val(s.subrange(0, k)),
    decreases s.len(),
{
    if k == s.len() {
        assert(s.subrange(0, k) =~= s);
    } else {
        assert(all_digits(s.drop_last()));
        assert(s.drop_last().subrange(0, k) =~= s.subrange(0, k));
        lemma_digits_val_prefix(s.drop_last(), k);
        lemma_digits_val_nonneg(s.drop_last());
        assert(is_digit(s.last()));
    }
}

/// The value of the digit run `s[from..to)`, read as a decimal numeral, if
/// it fits in `usize`; `None` if it exceeds `usize::MAX`.
pub fn parse_usize(s: &str, from: usize, to: usize) -> (r: Option<usize>)
    requires
        from <= to <= s@.len(),
        all_digits(s@.subrange(from as int, to as int)),
    ensures
        (match r {
            Option::Some(v) => digits_val(s@.subrange(from as int, to as int)) == v,
            Option::None => digits_val(s@.subrange(from as int, to as int)) > usize::MAX,
        }),
{
    let ghost whole = s@.subrange(from as int, to as int);
    let mut v: usize = 0;
    let mut i = from;
    while i < to
        invariant
            from <= i <= to <= s@.len(),
            all_digits(whole),
            whole == s@.subrange(from as int, to as int),
            digits_val(s@.subrange(from as int, i as int)) == v,
        decreases to - i,
    {
        let c = s.get_char(i);
        let d = (c as u32) as usize;
        proof {
            assert(whole[i - from] == s@[i as int]);
            assert(is_digit(c));
        }
        let d = d - 48;
        let next = match v.checked_mul(10) {
            Option::Some(m) => m.checked_add(d),
            Option::None => Option::None,
        };
        proof {
            assert(s@.subrange(from as int, i + 1).drop_last() =~= s@.subrange(
                from as int,
                i as int,
            ));
            assert(s@.subrange(from as int, i + 1).last() == s@[i as int]);
        }
        match next {
            Option::Some(nv) => {
                v = nv;
            },
            Option::None => {
                proof {
                    assert(digits_val(s@.subrange(from as int, i + 1)) > usize::MAX);
                    assert(s@.subrange(from as int, i + 1) =~= whole.subrange(0, i + 1 - from));
                    lemma_digits_val_prefix(whole, i + 1 - from);
                }
                return Option::None;
            },
        }
        i = i + 1;
    }
    proof {
        assert(s@.subrange(from as int, to as int) =~= s@.subrange(from as int, i as int));
    }
    Option::Some(v)
}

/// Whether `c` at position `i` spells the lower-case letter `l`, in
/// either case.
fn char_ci(s: &str, i: usize, l: char) -> (r: bool)
    requires
        i < s@.len(),
    ensures
        r == eq_ci(s@[i as int], l),
{
    let c = s.get_char(i);
    c == l || (c as u32) + 32 == (l as u32)
}

/// Whether the characters of `s` from `from` to `to` read as a number, as
/// [`is_number_text`] defines one.
#[verifier::loop_isolation(false)]
#[verifier::rlimit(60)]
pub fn is_number(s: &str, from: usize, to: usize) -> (r: bool)
    requires
        from <= to <= s@.len(),
    ensures
        r == is_number_text(s@.subrange(from as int, to as int)),
{
    let ghost piece = s@.subrange(from as int, to as int);
    proof {
        lemma_exp_at(after_sign(piece));
    }
    if to == from {
        proof {
            assert(after_sign(piece) =~= piece);
            assert(piece.subrange(0, exp_at(piece)) =~= piece);
        }
        return false;
    }
    let c0 = s.get_char(from);
    proof {
        assert(piece[0] == s@[from as int]);
    }
    let bs = if c0 == '+' || c0 == '-' {
        from + 1
    } else {
        from
    };
    let ghost b = after_sign(piece);
    proof {
        assert(b =~= s@.subrange(bs as int, to as int));
        assert(forall|k: int| 0 <= k < b.len() ==> b[k] == s@[bs + k]);
    }
    if bs == to {
        proof {
            assert(b.subrange(0, exp_at(b)) =~= b);
        }
        return false;
    }
    let c = s.get_char(bs);
    let ghost e_spec = exp_at(b);
    let ghost m = b.subrange(0, e_spec);
    proof {
        assert(forall|k: int| 0 <= k < m.len() ==> m[k] == b[k]);
    }
    if c == 'i' || c == 'I' {
        if to - bs == 3 && char_ci(s, bs + 1, 'n') && char_ci(s, bs + 2, 'f') {
            proof {
                assert(is_inf_word(b));
            }
            return true;
        }
        if to - bs == 8 && char_ci(s, bs + 1, 'n') && char_ci(s, bs + 2, 'f') && char_ci(
            s,
            bs + 3,
            'i',
        ) && char_ci(s, bs + 4, 'n') && char_ci(s, bs + 5, 'i') && char_ci(s, bs + 6, 't')
            && char_ci(s, bs + 7, 'y') {
            proof {
                assert(is_infinity_word(b));
            }
            return true;
        }
        proof {
            assert(!is_nan_word(b));
            assert(!mantissa_ok(m));
        }
        return false;
    }
    if c == 'n' || c == 'N' {
        if to - bs == 3 && char_ci(s, bs + 1, 'a') && char_ci(s, bs + 2, 'n') {
            proof {
                assert(is_nan_word(b));
            }
            return true;
        }
        proof {
            assert(!is_inf_word(b) && !is_infinity_word(b));
            assert(!mantissa_ok(m));
        }
        return false;
    }
    proof {
        assert(!is_inf_word(b) && !is_infinity_word(b) && !is_nan_word(b));
    }
    // The decimal form: locate the exponent marker within the piece.
    let g1 = find_char_at(s, bs, 'e');
    let g2 = find_char_at(s, bs, 'E');
    let g = if g1 < g2 {
        g1
    } else {
        g2
    };
    let e = if g > to {
        to
    } else {
        g
    };
    proof {
        lemma_find_at(s@, bs as int, 'e');
        lemma_find_at(s@, bs as int, 'E');
        assert(forall|j: int| bs <= j < e ==> s@[j] != 'e' && s@[j] != 'E');
        if e < to {
            assert(s@[e as int] == 'e' || s@[e as int] == 'E');
        }
        assert(e_spec == e - bs) by {
            if e_spec < e - bs {
                assert(b[e_spec] == s@[bs + e_spec]);
            }
            if e - bs < e_spec {
                assert(b[e - bs] == s@[e as int]);
            }
        }
    }
    if e == bs {
        proof {
            assert(!mantissa_ok(m));
        }
        return false;
    }
    let cu = c as u32;
    if 48 <= cu && cu <= 57 {
        let mut saw_dot = false;
        let mut i = bs + 1;
        while i < e
            invariant
                bs + 1 <= i <= e <= to <= s@.len(),
                is_digit(s@[bs as int]),
                forall|j: int| bs <= j < i ==> is_digit(s@[j]) || s@[j] == '.',
                saw_dot == exists|j: int| bs <= j < i && s@[j] == '.',
                forall|j: int, k: int| bs <= j < k < i && s@[j] == '.' ==> s@[k] != '.',
            decreases e - i,
        {
            let cc = s.get_char(i);
            let u = cc as u32;
            if 48 <= u && u <= 57 {
            } else if cc == '.' {
                if saw_dot {
                    proof {
                        let j = choose|j: int| bs <= j < i && s@[j] == '.';
                        assert(m[j - bs] == '.' && m[i - bs] == '.');
                        assert(!mantissa_ok(m));
                    }
                    return false;
                }
                saw_dot = true;
            } else {
                proof {
                    assert(!(is_digit(m[i - bs]) || m[i - bs] == '.'));
                    assert(!mantissa_ok(m));
                }
                return false;
            }
            i = i + 1;
        }
        proof {
            assert(mantissa_ok(m));
        }
    } else if c == '.' {
        if e - bs < 2 {
            proof {
                assert(!mantissa_ok(m));
            }
            return false;
        }
        let mut i = bs + 1;
        while i < e
            invariant
                bs + 1 <= i <= e <= to <= s@.len(),
                forall|j: int| bs + 1 <= j < i ==> is_digit(s@[j]),
            decreases e - i,
        {
            let cc = s.get_char(i);
            let u = cc as u32;
            if !(48 <= u && u <= 57) {
                proof {
                    assert(!is_digit(m[i - bs]));
                    assert(m[0] == '.');
                    assert(!mantissa_ok(m));
                }
                return false;
            }
            i = i + 1;
        }
        proof {
            assert(mantissa_ok(m));
        }
    } else {
        proof {
            assert(m[0] == b[0]);
            assert(!mantissa_ok(m));
        }
        return false;
    }
    if e == to {
        proof {
            assert(e_spec == b.len());
        }
        return true;
    }
    // The exponent: an optional sign, then at least one digit.
    let ghost ex = b.subrange(e_spec + 1, b.len() as int);
    proof {
        assert(forall|k: int| 0 <= k < ex.len() ==> ex[k] == s@[e + 1 + k]);
    }
    let mut j = e + 1;
    if j < to {
        let sc = s.get_char(j);
        if sc == '+' || sc == '-' {
            j = j + 1;
        }
    }
    let ghost d = after_sign(ex);
    proof {
        assert(d =~= s@.subrange(j as int, to as int));
        assert(forall|k: int| 0 <= k < d.len() ==> d[k] == s@[j + k]);
    }
    if j == to {
        proof {
            assert(!exponent_ok(ex));
        }
        return false;
    }
    let mut i = j;
    while i < to
        invariant
            j <= i <= to <= s@.len(),
            forall|k: int| j <= k < i ==> is_digit(s@[k]),
        decreases to - i,
    {
        let cc = s.get_char(i);
        let u = cc as u32;
        if !(48 <= u && u <= 57) {
            proof {
                assert(!is_digit(d[i - j]));
                assert(!exponent_ok(ex));
            }
            return false;
        }
        i = i + 1;
    }
    proof {
        assert(all_digits(d));
        assert(exponent_ok(ex));
    }
    true
}

} // verus!
