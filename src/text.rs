//! Character-level facts that the parser reads: bracket depth, top-level
//! operators and the spelling of numbers.
use vstd::prelude::*;

verus! {

/// Characters that the parser drops.
pub open spec fn is_space(c: char) -> bool {
    c == ' ' || c == '\t' || c == '\n' || c == '\r'
}

/// Curly and square brackets read as round ones.
pub open spec fn canonical_bracket(c: char) -> char {
    if c == '{' || c == '[' {
        '('
    } else if c == '}' || c == ']' {
        ')'
    } else {
        c
    }
}

/// The text with spaces dropped and every bracket made round.
pub open spec fn normalize(s: Seq<char>) -> Seq<char>
    decreases s.len(),
{
    if s.len() == 0 {
        Seq::empty()
    } else {
        let init = normalize(s.drop_last());
        if is_space(s.last()) {
            init
        } else {
            init.push(canonical_bracket(s.last()))
        }
    }
}

/// What a character adds to the bracket depth.
pub open spec fn bracket_delta(c: char) -> int {
    if c == '(' {
        1
    } else if c == ')' {
        -1
    } else {
        0
    }
}

/// The bracket depth after reading `s`: opening brackets less closing ones.
pub open spec fn depth(s: Seq<char>) -> int
    decreases s.len(),
{
    if s.len() == 0 {
        0
    } else {
        depth(s.drop_last()) + bracket_delta(s.last())
    }
}

/// No prefix of `s` closes more brackets than it opens.
pub open spec fn never_negative(s: Seq<char>) -> bool {
    forall|k: int| 0 <= k <= s.len() ==> depth(#[trigger] s.take(k)) >= 0
}

/// `s` is one bracket pair around the rest: the first bracket is closed by
/// the last character and no sooner.
pub open spec fn encloses(s: Seq<char>) -> bool {
    &&& s.len() >= 2
    &&& s[0] == '('
    &&& s.last() == ')'
    &&& forall|k: int| 1 <= k < s.len() ==> depth(#[trigger] s.take(k)) != 0
}

/// The characters that send the parser down the operator path.
pub open spec fn is_op_char(c: char) -> bool {
    c == '(' || c == ')' || c == '+' || c == '-' || c == '*' || c == '/' || c == '^'
}

pub open spec fn has_op(s: Seq<char>) -> bool {
    exists|i: int| 0 <= i < s.len() && is_op_char(#[trigger] s[i])
}

/// `c` stands at position `i` of `s` outside every bracket.
pub open spec fn is_top(s: Seq<char>, c: char, i: int) -> bool {
    0 <= i < s.len() && s[i] == c && depth(s.take(i)) == 0
}

/// The first top-level `c` among the first `n` characters.
pub open spec fn first_top(s: Seq<char>, c: char, n: int) -> Option<int>
    decreases n,
{
    if n <= 0 {
        None
    } else {
        match first_top(s, c, n - 1) {
            Some(j) => Some(j),
            None => if is_top(s, c, n - 1) {
                Some(n - 1)
            } else {
                None
            },
        }
    }
}

/// The last top-level `c` among the first `n` characters, the first
/// character left out.
pub open spec fn last_top(s: Seq<char>, c: char, n: int) -> Option<int>
    decreases n,
{
    if n <= 1 {
        None
    } else if is_top(s, c, n - 1) {
        Some(n - 1)
    } else {
        last_top(s, c, n - 1)
    }
}

pub proof fn lemma_first_top_range(s: Seq<char>, c: char, n: int)
    ensures
        first_top(s, c, n) matches Some(j) ==> 0 <= j < n && is_top(s, c, j),
    decreases n,
{
    if n > 0 {
        lemma_first_top_range(s, c, n - 1);
    }
}

pub proof fn lemma_last_top_range(s: Seq<char>, c: char, n: int)
    ensures
        last_top(s, c, n) matches Some(j) ==> 1 <= j < n && is_top(s, c, j),
    decreases n,
{
    if n > 1 {
        lemma_last_top_range(s, c, n - 1);
    }
}

pub proof fn lemma_depth_step(s: Seq<char>, k: int)
    requires
        0 <= k < s.len(),
    ensures
        depth(s.take(k + 1)) == depth(s.take(k)) + bracket_delta(s[k]),
{
    assert(s.take(k + 1).drop_last() =~= s.take(k));
}

pub open spec fn is_digit(c: char) -> bool {
    '0' <= c && c <= '9'
}

pub open spec fn all_digits(s: Seq<char>) -> bool {
    forall|i: int| 0 <= i < s.len() ==> is_digit(#[trigger] s[i])
}

/// Digits with at most one decimal point, and at least one digit.
pub open spec fn is_mantissa(m: Seq<char>) -> bool {
    ||| m.len() >= 1 && all_digits(m)
    ||| m.len() >= 2 && exists|k: int|
        0 <= k < m.len() && #[trigger] m[k] == '.' && all_digits(m.take(k)) && all_digits(
            m.skip(k + 1),
        )
}

/// Digits, after an optional sign.
pub open spec fn is_exponent(e: Seq<char>) -> bool {
    ||| e.len() >= 1 && all_digits(e)
    ||| e.len() >= 2 && (e[0] == '+' || e[0] == '-') && all_digits(e.drop_first())
}

/// A mantissa, then an optional exponent after `e` or `E`.
pub open spec fn is_number(t: Seq<char>) -> bool {
    ||| is_mantissa(t)
    ||| exists|k: int|
        0 < k < t.len() && (#[trigger] t[k] == 'e' || t[k] == 'E') && is_mantissa(t.take(k))
            && is_exponent(t.skip(k + 1))
}

/// `c` is the lower-case letter `w` in either case.
pub open spec fn same_letter(c: char, w: char) -> bool {
    c == w || c as u32 + 32 == w as u32
}

/// `t` spells the lower-case word `w`, letters in either case.
pub open spec fn spells_word(t: Seq<char>, w: Seq<char>) -> bool {
    t.len() == w.len() && forall|i: int| 0 <= i < t.len() ==> same_letter(t[i], #[trigger] w[i])
}

/// The words for the values that are not numbers.
pub open spec fn is_special(t: Seq<char>) -> bool {
    ||| spells_word(t, seq!['i', 'n', 'f'])
    ||| spells_word(t, seq!['i', 'n', 'f', 'i', 'n', 'i', 't', 'y'])
    ||| spells_word(t, seq!['n', 'a', 'n'])
}

/// A floating-point literal as the standard library's parser for `f64`
/// reads it: an optional sign, then a special word or a decimal number.
pub open spec fn is_float_literal(s: Seq<char>) -> bool {
    let t = if s.len() > 0 && (s[0] == '+' || s[0] == '-') {
        s.drop_first()
    } else {
        s
    };
    is_special(t) || is_number(t)
}

/// The literal is a plain spelling of two: zeros, the digit two, then
/// optionally a point and zeros.
pub open spec fn spells_two(t: Seq<char>) -> bool {
    exists|k: int|
        0 <= k < t.len() && #[trigger] t[k] == '2' && (forall|j: int| 0 <= j < k ==> t[j] == '0')
            && (k + 1 == t.len() || (t[k + 1] == '.' && forall|j: int|
            k + 2 <= j < t.len() ==> t[j] == '0'))
}

/// The text with spaces dropped and every bracket made round.
pub fn normalize_text(s: &str) -> (r: Vec<char>)
    ensures
        r@ == normalize(s@),
{
    let n = s.unicode_len();
    let mut r: Vec<char> = Vec::new();
    let mut i: usize = 0;
    while i < n
        invariant
            n == s@.len(),
            i <= n,
            r@ == normalize(s@.take(i as int)),
        decreases n - i,
    {
        let c = s.get_char(i);
        assert(s@.take(i + 1).drop_last() =~= s@.take(i as int));
        if !(c == ' ' || c == '\t' || c == '\n' || c == '\r') {
            let d = if c == '{' || c == '[' {
                '('
            } else if c == '}' || c == ']' {
                ')'
            } else {
                c
            };
            r.push(d);
        }
        i += 1;
    }
    assert(s@.take(n as int) =~= s@);
    r
}

/// Whether the brackets of `v[lo..hi]` balance, and whether no prefix of it
/// closes more than it opens.
pub fn bracket_balance(v: &Vec<char>, lo: usize, hi: usize) -> (r: (bool, bool))
    requires
        lo <= hi <= v.len(),
    ensures
        r.0 == (depth(v@.subrange(lo as int, hi as int)) == 0),
        r.1 == never_negative(v@.subrange(lo as int, hi as int)),
{
    let ghost s = v@.subrange(lo as int, hi as int);
    let mut opens: usize = 0;
    let mut closes: usize = 0;
    let mut ok = true;
    let mut k: usize = 0;
    assert(s.take(0) =~= Seq::<char>::empty());
    while k < hi - lo
        invariant
            lo <= hi <= v.len(),
            s == v@.subrange(lo as int, hi as int),
            k <= hi - lo,
            opens <= k,
            closes <= k,
            opens - closes == depth(s.take(k as int)),
            ok == forall|j: int| 0 <= j <= k ==> depth(#[trigger] s.take(j)) >= 0,
        decreases hi - lo - k,
    {
        let c = v[lo + k];
        proof {
            lemma_depth_step(s, k as int);
        }
        if c == '(' {
            opens += 1;
        } else if c == ')' {
            closes += 1;
        }
        if closes > opens {
            ok = false;
        }
        k += 1;
        proof {
            if ok {
                assert forall|j: int| 0 <= j <= k implies depth(#[trigger] s.take(j)) >= 0 by {
                    if j < k {
                    }
                }
            }
        }
    }
    assert(s.take(s.len() as int) =~= s);
    (opens == closes, ok)
}

/// Whether `v[lo..hi]` is one bracket pair around the rest.
pub fn encloses_check(v: &Vec<char>, lo: usize, hi: usize) -> (r: bool)
    requires
        lo <= hi <= v.len(),
    ensures
        r == encloses(v@.subrange(lo as int, hi as int)),
{
    let ghost s = v@.subrange(lo as int, hi as int);
    if hi - lo < 2 || v[lo] != '(' || v[hi - 1] != ')' {
        return false;
    }
    let mut opens: usize = 0;
    let mut closes: usize = 0;
    let mut k: usize = 0;
    assert(s.take(0) =~= Seq::<char>::empty());
    while k < hi - lo - 1
        invariant
            lo + 2 <= hi <= v.len(),
            s == v@.subrange(lo as int, hi as int),
            k <= hi - lo - 1,
            opens <= k,
            closes <= k,
            opens - closes == depth(s.take(k as int)),
            forall|j: int| 1 <= j <= k ==> depth(#[trigger] s.take(j)) != 0,
        decreases hi - lo - k,
    {
        let c = v[lo + k];
        proof {
            lemma_depth_step(s, k as int);
        }
        if c == '(' {
            opens += 1;
        } else if c == ')' {
            closes += 1;
        }
        k += 1;
        if opens == closes {
            return false;
        }
    }
    true
}

/// Whether `v[lo..hi]` holds a bracket or an operator.
pub fn has_op_check(v: &Vec<char>, lo: usize, hi: usize) -> (r: bool)
    requires
        lo <= hi <= v.len(),
    ensures
        r == has_op(v@.subrange(lo as int, hi as int)),
{
    let ghost s = v@.subrange(lo as int, hi as int);
    let mut k: usize = lo;
    while k < hi
        invariant
            lo <= k <= hi <= v.len(),
            s == v@.subrange(lo as int, hi as int),
            forall|j: int| 0 <= j < k - lo ==> !is_op_char(#[trigger] s[j]),
        decreases hi - k,
    {
        let c = v[k];
        if c == '(' || c == ')' || c == '+' || c == '-' || c == '*' || c == '/' || c == '^' {
            assert(is_op_char(s[k - lo]));
            return true;
        }
        k += 1;
    }
    false
}

/// The position, counted from `lo`, of the first top-level `c` in
/// `v[lo..hi]`.
pub fn find_first_top(v: &Vec<char>, lo: usize, hi: usize, c: char) -> (r: Option<usize>)
    requires
        lo <= hi <= v.len(),
    ensures
        r matches Some(i) ==> first_top(v@.subrange(lo as int, hi as int), c, hi - lo) == Some(
            i as int,
        ),
        r is None ==> first_top(v@.subrange(lo as int, hi as int), c, hi - lo) is None,
{
    let ghost s = v@.subrange(lo as int, hi as int);
    let mut opens: usize = 0;
    let mut closes: usize = 0;
    let mut k: usize = 0;
    assert(s.take(0) =~= Seq::<char>::empty());
    while k < hi - lo
        invariant
            lo <= hi <= v.len(),
            s == v@.subrange(lo as int, hi as int),
            k <= hi - lo,
            opens <= k,
            closes <= k,
            opens - closes == depth(s.take(k as int)),
            first_top(s, c, k as int) is None,
        decreases hi - lo - k,
    {
        let d = v[lo + k];
        proof {
            lemma_depth_step(s, k as int);
        }
        if d == c && opens == closes {
            proof {
                lemma_first_top_stays(s, c, k as int + 1, hi - lo);
            }
            return Some(k);
        }
        if d == '(' {
            opens += 1;
        } else if d == ')' {
            closes += 1;
        }
        k += 1;
    }
    None
}

/// Once found, the first top-level `c` stays the first.
pub proof fn lemma_first_top_stays(s: Seq<char>, c: char, n: int, m: int)
    requires
        n <= m,
        first_top(s, c, n) is Some,
    ensures
        first_top(s, c, m) == first_top(s, c, n),
    decreases m - n,
{
    if n < m {
        lemma_first_top_stays(s, c, n, m - 1);
    }
}

/// The position, counted from `lo`, of the last top-level `c` in
/// `v[lo..hi]` but its first character.
pub fn find_last_top(v: &Vec<char>, lo: usize, hi: usize, c: char) -> (r: Option<usize>)
    requires
        lo <= hi <= v.len(),
    ensures
        r matches Some(i) ==> last_top(v@.subrange(lo as int, hi as int), c, hi - lo) == Some(
            i as int,
        ),
        r is None ==> last_top(v@.subrange(lo as int, hi as int), c, hi - lo) is None,
{
    let ghost s = v@.subrange(lo as int, hi as int);
    let mut opens: usize = 0;
    let mut closes: usize = 0;
    let mut k: usize = 0;
    let mut found: Option<usize> = None;
    assert(s.take(0) =~= Seq::<char>::empty());
    while k < hi - lo
        invariant
            lo <= hi <= v.len(),
            s == v@.subrange(lo as int, hi as int),
            k <= hi - lo,
            opens <= k,
            closes <= k,
            opens - closes == depth(s.take(k as int)),
            found matches Some(i) ==> last_top(s, c, k as int) == Some(i as int),
            found is None ==> last_top(s, c, k as int) is None,
        decreases hi - lo - k,
    {
        let d = v[lo + k];
        proof {
            lemma_depth_step(s, k as int);
        }
        if d == c && opens == closes && k != 0 {
            found = Some(k);
        }
        if d == '(' {
            opens += 1;
        } else if d == ')' {
            closes += 1;
        }
        k += 1;
    }
    found
}

/// Whether `v[a..b]` is all digits.
fn all_digits_check(v: &Vec<char>, a: usize, b: usize) -> (r: bool)
    requires
        a <= b <= v.len(),
    ensures
        r == all_digits(v@.subrange(a as int, b as int)),
{
    let mut k: usize = a;
    while k < b
        invariant
            a <= k <= b <= v.len(),
            forall|j: int| a <= j < k ==> is_digit(#[trigger] v@[j]),
        decreases b - k,
    {
        if !('0' <= v[k] && v[k] <= '9') {
            assert(!is_digit(v@.subrange(a as int, b as int)[k - a]));
            return false;
        }
        k += 1;
    }
    assert forall|j: int| 0 <= j < b - a implies is_digit(
        #[trigger] v@.subrange(a as int, b as int)[j],
    ) by {
        assert(is_digit(v@[a + j]));
    }
    true
}

/// The first position in `v[a..b]` that holds `c1` or `c2`.
fn find_either(v: &Vec<char>, a: usize, b: usize, c1: char, c2: char) -> (r: Option<usize>)
    requires
        a <= b <= v.len(),
    ensures
        r matches Some(i) ==> a <= i < b && (v@[i as int] == c1 || v@[i as int] == c2),
        forall|j: int|
            a <= j < (if let Some(i) = r {
                i as int
            } else {
                b as int
            }) ==> #[trigger] v@[j] != c1 && v@[j] != c2,
{
    let mut k: usize = a;
    while k < b
        invariant
            a <= k <= b <= v.len(),
            forall|j: int| a <= j < k ==> #[trigger] v@[j] != c1 && v@[j] != c2,
        decreases b - k,
    {
        if v[k] == c1 || v[k] == c2 {
            return Some(k);
        }
        k += 1;
    }
    None
}

/// Whether `v[a..b]` is a mantissa.
fn mantissa_check(v: &Vec<char>, a: usize, b: usize) -> (r: bool)
    requires
        a <= b <= v.len(),
    ensures
        r == is_mantissa(v@.subrange(a as int, b as int)),
{
    let ghost m = v@.subrange(a as int, b as int);
    match find_either(v, a, b, '.', '.') {
        None => {
            b - a >= 1 && all_digits_check(v, a, b)
        },
        Some(p) => {
            let ghost k = p - a;
            let r = b - a >= 2 && all_digits_check(v, a, p) && all_digits_check(v, p + 1, b);
            assert(m.take(k) =~= v@.subrange(a as int, p as int));
            assert(m.skip(k + 1) =~= v@.subrange(p + 1, b as int));
            assert(m[k] == '.');
            assert(!all_digits(m)) by {
                assert(!is_digit(m[k]));
            }
            proof {
                if !r && m.len() >= 2 {
                    assert forall|j: int|
                        0 <= j < m.len() && #[trigger] m[j] == '.' implies !(all_digits(m.take(j))
                        && all_digits(m.skip(j + 1))) by {
                        if j < k {
                            assert(v@[a + j] != '.');
                        } else if j > k {
                            assert(!is_digit(m.take(j)[k]));
                        }
                    }
                }
            }
            r
        },
    }
}

/// Whether `v[a..b]` is an exponent.
fn exponent_check(v: &Vec<char>, a: usize, b: usize) -> (r: bool)
    requires
        a <= b <= v.len(),
    ensures
        r == is_exponent(v@.subrange(a as int, b as int)),
{
    let ghost e = v@.subrange(a as int, b as int);
    if b - a >= 2 && (v[a] == '+' || v[a] == '-') {
        assert(e.drop_first() =~= v@.subrange(a + 1, b as int));
        assert(!all_digits(e)) by {
            assert(!is_digit(e[0]));
        }
        all_digits_check(v, a + 1, b)
    } else {
        b - a >= 1 && all_digits_check(v, a, b)
    }
}

/// Whether `v[a..b]` is a decimal number.
fn number_check(v: &Vec<char>, a: usize, b: usize) -> (r: bool)
    requires
        a <= b <= v.len(),
    ensures
        r == is_number(v@.subrange(a as int, b as int)),
{
    let ghost t = v@.subrange(a as int, b as int);
    match find_either(v, a, b, 'e', 'E') {
        None => {
            assert forall|k: int| 0 < k < t.len() implies !(#[trigger] t[k] == 'e' || t[k]
                == 'E') by {
                assert(t[k] == v@[a + k]);
            }
            mantissa_check(v, a, b)
        },
        Some(p) => {
            let ghost k = p - a;
            assert(t[k] == v@[p as int]);
            assert(!is_mantissa(t)) by {
                assert(!is_digit(t[k]) && t[k] != '.');
                if t.len() >= 2 {
                    assert forall|j: int|
                        0 <= j < t.len() && #[trigger] t[j] == '.' implies !(all_digits(t.take(j))
                        && all_digits(t.skip(j + 1))) by {
                        if j < k {
                            assert(t.skip(j + 1)[k - j - 1] == t[k]);
                        } else {
                            assert(t.take(j)[k] == t[k]);
                        }
                    }
                }
            }
            if p == a {
                assert forall|j: int|
                    0 < j < t.len() && (#[trigger] t[j] == 'e' || t[j] == 'E') implies !is_mantissa(
                    t.take(j),
                ) by {
                    let u = t.take(j);
                    assert(u[0] == t[0]);
                    assert(!is_digit(u[0]) && u[0] != '.');
                    if u.len() >= 2 {
                        assert forall|i: int|
                            0 <= i < u.len() && #[trigger] u[i] == '.' implies !(all_digits(
                                u.take(i),
                            ) && all_digits(u.skip(i + 1))) by {
                            if i > 0 {
                                assert(u.take(i)[0] == u[0]);
                            }
                        }
                    }
                }
                return false;
            }
            let r = mantissa_check(v, a, p) && exponent_check(v, p + 1, b);
            assert(t.take(k) =~= v@.subrange(a as int, p as int));
            assert(t.skip(k + 1) =~= v@.subrange(p + 1, b as int));
            if !r {
                assert forall|j: int|
                    0 < j < t.len() && (#[trigger] t[j] == 'e' || t[j] == 'E') implies !(
                    is_mantissa(t.take(j)) && is_exponent(t.skip(j + 1))) by {
                    if j < k {
                        assert(t[j] == v@[a + j]);
                    } else if j > k {
                        let u = t.take(j);
                        assert(u[k] == t[k]);
                        assert(!is_digit(u[k]) && u[k] != '.');
                        assert(!all_digits(u)) by {
                            assert(!is_digit(u[k]));
                        }
                        if u.len() >= 2 {
                            assert forall|i: int|
                                0 <= i < u.len() && #[trigger] u[i] == '.' implies !(all_digits(
                                    u.take(i),
                                ) && all_digits(u.skip(i + 1))) by {
                                if i < k {
                                    assert(u.skip(i + 1)[k - i - 1] == u[k]);
                                } else {
                                    assert(u.take(i)[k] == u[k]);
                                }
                            }
                        }
                    }
                }
            }
            r
        },
    }
}

/// Whether `v[a..b]` spells the lower-case word `w`, letters in either case.
fn word_check(v: &Vec<char>, a: usize, b: usize, w: &[char]) -> (r: bool)
    requires
        a <= b <= v.len(),
    ensures
        r == spells_word(v@.subrange(a as int, b as int), w@),
{
    if b - a != w.len() {
        return false;
    }
    let mut k: usize = 0;
    while k < w.len()
        invariant
            a <= b <= v.len(),
            b - a == w@.len(),
            k <= w@.len(),
            forall|j: int| 0 <= j < k ==> same_letter(v@[a + j], #[trigger] w@[j]),
        decreases w.len() - k,
    {
        let c = v[a + k];
        let l = w[k];
        if !(c == l || (l as u32 >= 32 && c as u32 == l as u32 - 32)) {
            assert(v@.subrange(a as int, b as int)[k as int] == c);
            return false;
        }
        k += 1;
    }
    assert forall|j: int| 0 <= j < b - a implies same_letter(
        v@.subrange(a as int, b as int)[j],
        #[trigger] w@[j],
    ) by {
        assert(same_letter(v@[a + j], w@[j]));
    }
    true
}

/// Whether `v[lo..hi]` is a floating-point literal.
pub fn float_literal_check(v: &Vec<char>, lo: usize, hi: usize) -> (r: bool)
    requires
        lo <= hi <= v.len(),
    ensures
        r == is_float_literal(v@.subrange(lo as int, hi as int)),
{
    let ghost s = v@.subrange(lo as int, hi as int);
    let a = if hi > lo && (v[lo] == '+' || v[lo] == '-') {
        lo + 1
    } else {
        lo
    };
    assert(a > lo ==> s.drop_first() =~= v@.subrange(a as int, hi as int));
    let inf = ['i', 'n', 'f'];
    let infinity = ['i', 'n', 'f', 'i', 'n', 'i', 't', 'y'];
    let nan = ['n', 'a', 'n'];
    assert(inf@ =~= seq!['i', 'n', 'f']);
    assert(infinity@ =~= seq!['i', 'n', 'f', 'i', 'n', 'i', 't', 'y']);
    assert(nan@ =~= seq!['n', 'a', 'n']);
    word_check(v, a, hi, &inf) || word_check(v, a, hi, &infinity) || word_check(
        v,
        a,
        hi,
        &nan,
    ) || number_check(v, a, hi)
}

/// Whether the text is a plain spelling of two.
pub fn spells_two_check(t: &str) -> (r: bool)
    ensures
        r == spells_two(t@),
{
    let n = t.unicode_len();
    let mut k: usize = 0;
    while k < n && t.get_char(k) == '0'
        invariant
            n == t@.len(),
            k <= n,
            forall|j: int| 0 <= j < k ==> t@[j] == '0',
        decreases n - k,
    {
        k += 1;
    }
    if k == n || t.get_char(k) != '2' {
        assert forall|i: int| 0 <= i < t@.len() && #[trigger] t@[i] == '2' implies !(forall|
            j: int,
        | 0 <= j < i ==> t@[j] == '0') by {
            if i > k {
                assert(t@[k as int] != '0');
            }
        }
        return false;
    }
    if k + 1 == n {
        return true;
    }
    if t.get_char(k + 1) != '.' {
        assert forall|i: int| 0 <= i < t@.len() && #[trigger] t@[i] == '2' && (forall|j: int|
            0 <= j < i ==> t@[j] == '0') implies i == k by {
            if i > k {
                assert(t@[k as int] != '0');
            }
        }
        return false;
    }
    let mut j: usize = k + 2;
    while j < n
        invariant
            n == t@.len(),
            k + 2 <= j <= n,
            t@[k as int] == '2',
            forall|i: int| 0 <= i < k ==> t@[i] == '0',
            forall|i: int| k + 2 <= i < j ==> t@[i] == '0',
        decreases n - j,
    {
        if t.get_char(j) != '0' {
            assert forall|i: int| 0 <= i < t@.len() && #[trigger] t@[i] == '2' && (forall|
                m: int,
            | 0 <= m < i ==> t@[m] == '0') implies !(i + 1 == t@.len() || (t@[i + 1] == '.'
                && forall|m: int| i + 2 <= m < t@.len() ==> t@[m] == '0')) by {
                if i > k {
                    assert(t@[k as int] != '0');
                } else if i < k {
                    assert(t@[i] == '0');
                } else {
                    assert(t@[j as int] != '0');
                }
            }
            return false;
        }
        j += 1;
    }
    true
}

} // verus!
