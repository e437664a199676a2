//! Character-level text helpers shared by the argument, alias and filename
//! logic: ASCII case folding, prefix/suffix/substring search and decimal
//! conversion, each specified over `Seq<char>`.
use vstd::prelude::*;
use vstd::string::*;

verus! {

// ── Specifications ──────────────────────────────────────────────────────────

pub open spec fn is_upper(c: char) -> bool {
    'A' <= c && c <= 'Z'
}

pub open spec fn is_lower(c: char) -> bool {
    'a' <= c && c <= 'z'
}

pub open spec fn is_digit(c: char) -> bool {
    '0' <= c && c <= '9'
}

pub open spec fn is_alnum(c: char) -> bool {
    is_upper(c) || is_lower(c) || is_digit(c)
}

/// ASCII lower-casing of one character; everything else is unchanged.
pub open spec fn lower_char(c: char) -> char {
    if is_upper(c) {
        ((c as u32) + 32) as char
    } else {
        c
    }
}

/// ASCII upper-casing of one character; everything else is unchanged.
pub open spec fn upper_char(c: char) -> char {
    if is_lower(c) {
        ((c as u32) - 32) as char
    } else {
        c
    }
}

pub open spec fn lower(s: Seq<char>) -> Seq<char> {
    s.map_values(|c: char| lower_char(c))
}

pub open spec fn upper(s: Seq<char>) -> Seq<char> {
    s.map_values(|c: char| upper_char(c))
}

pub open spec fn has_prefix(s: Seq<char>, p: Seq<char>) -> bool {
    p.len() <= s.len() && s.subrange(0, p.len() as int) == p
}

pub open spec fn has_suffix(s: Seq<char>, p: Seq<char>) -> bool {
    p.len() <= s.len() && s.subrange(s.len() - p.len(), s.len() as int) == p
}

/// `p` occurs in `s` starting at index `i`.
pub open spec fn occurs_at(s: Seq<char>, p: Seq<char>, i: int) -> bool {
    0 <= i && i + p.len() <= s.len() && s.subrange(i, i + p.len()) == p
}

pub open spec fn contains(s: Seq<char>, p: Seq<char>) -> bool {
    exists|i: int| occurs_at(s, p, i)
}

/// Index of the first occurrence of `p` in `s`.
pub open spec fn first_occurrence(s: Seq<char>, p: Seq<char>) -> Option<int> {
    if contains(s, p) {
        Some(choose|i: int| occurs_at(s, p, i) && forall|j: int| 0 <= j < i ==> !occurs_at(s, p, j))
    } else {
        None
    }
}

/// Index of the last occurrence of `c` in `s`.
pub open spec fn last_index_of(s: Seq<char>, c: char) -> Option<int> {
    if exists|i: int| 0 <= i < s.len() && s[i] == c {
        Some(choose|i: int| 0 <= i < s.len() && s[i] == c && forall|j: int| i < j < s.len() ==> s[j] != c)
    } else {
        None
    }
}

pub open spec fn digit_value(c: char) -> nat {
    ((c as u32) - ('0' as u32)) as nat
}

pub open spec fn all_digits(s: Seq<char>) -> bool {
    forall|i: int| 0 <= i < s.len() ==> is_digit(#[trigger] s[i])
}

/// The number that a run of decimal digits denotes.
pub open spec fn digits_value(s: Seq<char>) -> nat
    decreases s.len(),
{
    if s.len() == 0 {
        0
    } else {
        digits_value(s.drop_last()) * 10 + digit_value(s.last())
    }
}

/// What Rust's `str::parse` gives for an unsigned integer type whose maximum
/// is `max`: an optional `+`, then one or more decimal digits, in range.
pub open spec fn parse_unsigned(s: Seq<char>, max: nat) -> Option<nat> {
    let body = if s.len() > 0 && s[0] == '+' { s.drop_first() } else { s };
    if body.len() > 0 && all_digits(body) && digits_value(body) <= max {
        Some(digits_value(body))
    } else {
        None
    }
}

pub open spec fn digit_char(d: nat) -> char {
    ((d + 48) as u32) as char
}

/// Decimal rendering of a natural number, as `to_string` writes it.
pub open spec fn decimal(n: nat) -> Seq<char>
    decreases n,
{
    if n < 10 {
        seq![digit_char(n)]
    } else {
        decimal(n / 10).push(digit_char(n % 10))
    }
}

/// The parts joined with `sep` between consecutive parts (`slice::join`).
pub open spec fn join(parts: Seq<Seq<char>>, sep: Seq<char>) -> Seq<char>
    decreases parts.len(),
{
    if parts.len() == 0 {
        seq![]
    } else if parts.len() == 1 {
        parts[0]
    } else {
        join(parts.drop_last(), sep) + sep + parts.last()
    }
}

/// `s.split(|c| seps.contains(c))`: the pieces between separators, empty
/// pieces included, so a string with `k` separators has `k + 1` pieces.
pub open spec fn split_on(s: Seq<char>, seps: Seq<char>) -> Seq<Seq<char>>
    decreases s.len(),
{
    if s.len() == 0 {
        seq![seq![]]
    } else {
        let prev = split_on(s.drop_last(), seps);
        if seps.contains(s.last()) {
            prev.push(seq![])
        } else {
            prev.update(prev.len() - 1, prev.last().push(s.last()))
        }
    }
}

/// The non-empty parts, in order.
pub open spec fn non_empty(parts: Seq<Seq<char>>) -> Seq<Seq<char>>
    decreases parts.len(),
{
    if parts.len() == 0 {
        seq![]
    } else if parts.last().len() > 0 {
        non_empty(parts.drop_last()).push(parts.last())
    } else {
        non_empty(parts.drop_last())
    }
}

/// Unicode `White_Space`, what `char::is_whitespace` and `str::trim` use.
pub open spec fn is_whitespace(c: char) -> bool {
    ('\u{9}' <= c && c <= '\u{d}') || c == ' ' || c == '\u{85}' || c == '\u{a0}'
        || c == '\u{1680}' || ('\u{2000}' <= c && c <= '\u{200a}') || c == '\u{2028}'
        || c == '\u{2029}' || c == '\u{202f}' || c == '\u{205f}' || c == '\u{3000}'
}

/// `s` without its leading characters that satisfy `p`.
pub open spec fn trim_start_by(s: Seq<char>, p: spec_fn(char) -> bool) -> Seq<char>
    decreases s.len(),
{
    if s.len() > 0 && p(s[0]) { trim_start_by(s.drop_first(), p) } else { s }
}

/// `s` without its trailing characters that satisfy `p`.
pub open spec fn trim_end_by(s: Seq<char>, p: spec_fn(char) -> bool) -> Seq<char>
    decreases s.len(),
{
    if s.len() > 0 && p(s.last()) { trim_end_by(s.drop_last(), p) } else { s }
}

/// `str::trim`.
pub open spec fn trim(s: Seq<char>) -> Seq<char> {
    trim_end_by(trim_start_by(s, |c: char| is_whitespace(c)), |c: char| is_whitespace(c))
}

/// `str::trim_matches(c)` for one character.
pub open spec fn trim_char(s: Seq<char>, c: char) -> Seq<char> {
    trim_end_by(trim_start_by(s, equals_char(c)), equals_char(c))
}

pub open spec fn equals_char(c: char) -> spec_fn(char) -> bool {
    |x: char| x == c
}

/// Every occurrence of `from` replaced by `to`.
pub open spec fn replace_char(s: Seq<char>, from: char, to: char) -> Seq<char> {
    s.map_values(|c: char| if c == from { to } else { c })
}

/// Index of the last occurrence of `p` in `s`.
pub open spec fn last_occurrence(s: Seq<char>, p: Seq<char>) -> Option<int> {
    if contains(s, p) {
        Some(choose|i: int| occurs_at(s, p, i) && forall|j: int| i < j ==> !occurs_at(s, p, j))
    } else {
        None
    }
}

pub open spec fn opt_str(o: Option<String>) -> Option<Seq<char>> {
    match o {
        Some(s) => Some(s@),
        None => None,
    }
}

pub open spec fn strings_view(v: Seq<String>) -> Seq<Seq<char>> {
    v.map_values(|s: String| s@)
}

/// Character-wise lexicographic order (the order of `str` in a `BTreeMap`).
pub open spec fn lex_lt(a: Seq<char>, b: Seq<char>) -> bool
    decreases a.len(),
{
    if a.len() == 0 {
        b.len() > 0
    } else if b.len() == 0 {
        false
    } else if a[0] != b[0] {
        a[0] < b[0]
    } else {
        lex_lt(a.drop_first(), b.drop_first())
    }
}


// ── Lemmas ──────────────────────────────────────────────────────────────────

pub proof fn lemma_digits_value_prefix_le(s: Seq<char>, i: int)
    requires
        0 <= i <= s.len(),
        all_digits(s),
    ensures
        digits_value(s.subrange(0, i)) <= digits_value(s),
    decreases s.len() - i,
{
    if i < s.len() {
        lemma_digits_value_prefix_le(s, i + 1);
        let t = s.subrange(0, i + 1);
        assert(t.drop_last() =~= s.subrange(0, i));
    } else {
        assert(s.subrange(0, i) =~= s);
    }
}

/// What the index of the last occurrence is, and that there is none when
/// the character does not occur.
pub proof fn lemma_last_index_of(s: Seq<char>, c: char)
    ensures
        match last_index_of(s, c) {
            Some(i) => 0 <= i < s.len() && s[i] == c && forall|j: int| i < j < s.len() ==> s[j] != c,
            None => forall|j: int| 0 <= j < s.len() ==> s[j] != c,
        },
{
    if exists|i: int| 0 <= i < s.len() && s[i] == c {
        let i = choose|i: int| 0 <= i < s.len() && s[i] == c && forall|j: int| i < j < s.len() ==> s[j] != c;
        assert(0 <= i < s.len() && s[i] == c && forall|j: int| i < j < s.len() ==> s[j] != c) by {
            let w = choose|w: int| 0 <= w < s.len() && s[w] == c;
            lemma_last_exists(s, c, w);
        }
    }
}

proof fn lemma_last_exists(s: Seq<char>, c: char, w: int)
    requires
        0 <= w < s.len(),
        s[w] == c,
    ensures
        exists|i: int| 0 <= i < s.len() && s[i] == c && forall|j: int| i < j < s.len() ==> s[j] != c,
    decreases s.len() - w,
{
    if exists|k: int| w < k < s.len() && s[k] == c {
        let k = choose|k: int| w < k < s.len() && s[k] == c;
        lemma_last_exists(s, c, k);
    } else {
        assert(forall|j: int| w < j < s.len() ==> s[j] != c);
    }
}

pub proof fn lemma_decimal_long(n: nat)
    requires
        n >= 10,
    ensures
        decimal(n).len() >= 2,
{
    lemma_decimal_nonempty(n / 10);
}

proof fn lemma_digit_char_injective(x: nat, y: nat)
    requires
        x < 10,
        y < 10,
        digit_char(x) == digit_char(y),
    ensures
        x == y,
{
    assert(digit_char(x) as u32 == x + 48);
    assert(digit_char(y) as u32 == y + 48);
}

/// Distinct numbers have distinct decimal renderings.
pub proof fn lemma_decimal_injective(a: nat, b: nat)
    requires
        decimal(a) == decimal(b),
    ensures
        a == b,
    decreases a,
{
    if a < 10 && b < 10 {
        assert(decimal(a)[0] == digit_char(a) && decimal(b)[0] == digit_char(b));
        lemma_digit_char_injective(a, b);
    } else if a < 10 {
        lemma_decimal_long(b);
    } else if b < 10 {
        lemma_decimal_long(a);
    } else {
        let da = decimal(a / 10);
        let db = decimal(b / 10);
        assert(decimal(a) == da.push(digit_char(a % 10)));
        assert(decimal(b) == db.push(digit_char(b % 10)));
        assert(da =~= decimal(a).drop_last());
        assert(db =~= decimal(b).drop_last());
        lemma_decimal_injective(a / 10, b / 10);
        assert(decimal(a).last() == digit_char(a % 10));
        assert(decimal(b).last() == digit_char(b % 10));
        lemma_digit_char_injective(a % 10, b % 10);
    }
}

/// The last occurrence of `p` is an occurrence, with none after it.
pub proof fn lemma_last_occurrence(s: Seq<char>, p: Seq<char>)
    ensures
        match last_occurrence(s, p) {
            Some(i) => occurs_at(s, p, i) && forall|j: int| i < j ==> !occurs_at(s, p, j),
            None => forall|j: int| !occurs_at(s, p, j),
        },
{
    if contains(s, p) {
        let w = choose|w: int| occurs_at(s, p, w);
        lemma_last_occurrence_exists(s, p, w);
    }
}

proof fn lemma_last_occurrence_exists(s: Seq<char>, p: Seq<char>, w: int)
    requires
        occurs_at(s, p, w),
    ensures
        exists|i: int| occurs_at(s, p, i) && forall|j: int| i < j ==> !occurs_at(s, p, j),
    decreases s.len() - w,
{
    if exists|k: int| w < k && occurs_at(s, p, k) {
        let k = choose|k: int| w < k && occurs_at(s, p, k);
        lemma_last_occurrence_exists(s, p, k);
    } else {
        assert(forall|j: int| w < j ==> !occurs_at(s, p, j));
    }
}

pub proof fn lemma_decimal_nonempty(n: nat)
    ensures
        decimal(n).len() >= 1,
    decreases n,
{
    if n >= 10 {
        lemma_decimal_nonempty(n / 10);
    }
}

/// Splitting text that holds no separator after `x` only extends the last
/// piece of `x`.
pub proof fn lemma_split_on_extend(x: Seq<char>, y: Seq<char>, seps: Seq<char>)
    requires
        forall|i: int| 0 <= i < y.len() ==> !seps.contains(#[trigger] y[i]),
    ensures
        split_on(x + y, seps).len() == split_on(x, seps).len(),
        split_on(x + y, seps) == split_on(x, seps).update(
            split_on(x, seps).len() - 1,
            split_on(x, seps).last() + y,
        ),
    decreases y.len(),
{
    lemma_split_on_nonempty(x, seps);
    if y.len() == 0 {
        assert(x + y =~= x);
        assert(split_on(x, seps).last() + y =~= split_on(x, seps).last());
        assert(split_on(x, seps).update(split_on(x, seps).len() - 1, split_on(x, seps).last())
            =~= split_on(x, seps));
    } else {
        let y0 = y.drop_last();
        lemma_split_on_extend(x, y0, seps);
        assert((x + y).drop_last() =~= x + y0);
        assert((x + y).last() == y.last());
        lemma_split_on_nonempty(x + y0, seps);
        let prev = split_on(x + y0, seps);
        assert(split_on(x + y, seps) == prev.update(prev.len() - 1, prev.last().push(y.last())));
        assert(prev.last() == split_on(x, seps).last() + y0);
        assert(prev.last().push(y.last()) =~= split_on(x, seps).last() + y);
        assert(split_on(x + y, seps) =~= split_on(x, seps).update(split_on(x, seps).len() - 1, split_on(x, seps).last() + y));
    }
}

/// Splitting the `sep`-joined parts gives the parts back when no part holds
/// a separator.
pub proof fn lemma_split_join(parts: Seq<Seq<char>>, sep: char)
    requires
        parts.len() >= 1,
        forall|k: int, i: int| 0 <= k < parts.len() && 0 <= i < parts[k].len() ==> #[trigger] parts[k][i] != sep,
    ensures
        split_on(join(parts, seq![sep]), seq![sep]) == parts,
    decreases parts.len(),
{
    let seps = seq![sep];
    assert forall|k: int, i: int| 0 <= k < parts.len() && 0 <= i < parts[k].len() implies !seps.contains(#[trigger] parts[k][i]) by {
        if seps.contains(parts[k][i]) {
            let w = choose|w: int| 0 <= w < seps.len() && seps[w] == parts[k][i];
        }
    }
    if parts.len() == 1 {
        lemma_split_on_extend(seq![], parts[0], seps);
        assert(seq![] + parts[0] =~= parts[0]);
        assert(split_on(seq![], seps) == seq![Seq::<char>::empty()]);
        assert(seq![Seq::<char>::empty()].update(0, Seq::<char>::empty() + parts[0]) =~= parts);
    } else {
        let init = parts.drop_last();
        lemma_split_join(init, sep);
        let x = join(init, seps);
        assert(seps[0] == sep);
        assert(seps.contains(sep));
        assert((x + seps).drop_last() =~= x);
        assert(split_on(x + seps, seps) == split_on(x, seps).push(seq![]));
        lemma_split_on_extend(x + seps, parts.last(), seps);
        assert(join(parts, seps) == x + seps + parts.last());
        assert(init.push(seq![]).update(init.len() as int, Seq::<char>::empty() + parts.last()) =~= parts);
    }
}

/// `non_empty` keeps a list whose parts are all non-empty.
pub proof fn lemma_non_empty_keeps(parts: Seq<Seq<char>>)
    requires
        forall|k: int| 0 <= k < parts.len() ==> #[trigger] parts[k].len() > 0,
    ensures
        non_empty(parts) == parts,
    decreases parts.len(),
{
    if parts.len() > 0 {
        lemma_non_empty_keeps(parts.drop_last());
        assert(non_empty(parts.drop_last()).push(parts.last()) =~= parts);
    }
}

/// A decimal rendering is a run of digits denoting the number it renders.
pub proof fn lemma_decimal_digits(n: nat)
    ensures
        decimal(n).len() >= 1,
        all_digits(decimal(n)),
        digits_value(decimal(n)) == n,
    decreases n,
{
    lemma_decimal_nonempty(n);
    if n >= 10 {
        lemma_decimal_digits(n / 10);
        let d = decimal(n);
        assert(d.drop_last() =~= decimal(n / 10));
        assert(d.last() == digit_char(n % 10));
        assert(digit_value(digit_char(n % 10)) == n % 10);
        assert(digits_value(d) == digits_value(decimal(n / 10)) * 10 + n % 10);
        assert((n / 10) * 10 + n % 10 == n);
        assert forall|i: int| 0 <= i < d.len() implies is_digit(#[trigger] d[i]) by {
            if i < d.len() - 1 {
                assert(d[i] == decimal(n / 10)[i]);
            }
        }
    } else {
        assert(digit_value(digit_char(n)) == n);
        assert(decimal(n).drop_last() =~= Seq::<char>::empty());
        assert(decimal(n).last() == digit_char(n));
        assert(digits_value(decimal(n).drop_last()) == 0);
    }
}

/// `str::parse` reads back what `to_string` wrote.
pub proof fn lemma_parse_decimal(n: nat, max: nat)
    requires
        n <= max,
    ensures
        parse_unsigned(decimal(n), max) == Some(n),
{
    lemma_decimal_digits(n);
    assert(is_digit(decimal(n)[0]));
}

// ── Conversions between `str`/`String` and `Vec<char>` ───────────────────────

/// Appends one character (`String::push`).
#[verifier::external_body]
pub fn push_char(s: &mut String, c: char)
    ensures
        final(s)@ == old(s)@.push(c),
{
    s.push(c);
}

pub fn chars_of(s: &str) -> (v: Vec<char>)
    ensures
        v@ == s@,
{
    let n = s.unicode_len();
    let mut v: Vec<char> = Vec::new();
    let mut i: usize = 0;
    while i < n
        invariant
            n == s@.len(),
            i <= n,
            v@ == s@.subrange(0, i as int),
        decreases n - i,
    {
        let c = s.get_char(i);
        v.push(c);
        i = i + 1;
        assert(v@ =~= s@.subrange(0, i as int));
    }
    assert(v@ =~= s@);
    v
}

pub fn string_from(v: &[char]) -> (s: String)
    ensures
        s@ == v@,
{
    let mut s = String::new();
    let mut i: usize = 0;
    while i < v.len()
        invariant
            i <= v.len(),
            s@ == v@.subrange(0, i as int),
        decreases v.len() - i,
    {
        push_char(&mut s, v[i]);
        i = i + 1;
        assert(s@ =~= v@.subrange(0, i as int));
    }
    assert(s@ =~= v@);
    s
}

pub fn all_digits_exec(s: &[char]) -> (r: bool)
    ensures
        r == all_digits(s@),
{
    let mut i: usize = 0;
    while i < s.len()
        invariant
            i <= s.len(),
            forall|j: int| 0 <= j < i ==> is_digit(#[trigger] s@[j]),
        decreases s.len() - i,
    {
        if !('0' <= s[i] && s[i] <= '9') {
            assert(!is_digit(s@[i as int]));
            return false;
        }
        i = i + 1;
    }
    true
}

pub fn str_is_empty(s: &str) -> (r: bool)
    ensures
        r == (s@.len() == 0),
{
    s.unicode_len() == 0
}

pub fn string_from_str(s: &str) -> (r: String)
    ensures
        r@ == s@,
{
    String::from_str(s)
}

/// Concatenation of two character sequences as a new `String`.
pub fn concat_str(a: &str, b: &str) -> (r: String)
    ensures
        r@ == a@ + b@,
{
    let mut s = String::from_str(a);
    s.append(b);
    s
}

pub fn str_eq(a: &str, b: &str) -> (r: bool)
    ensures
        r == (a@ == b@),
{
    let x = chars_of(a);
    let y = chars_of(b);
    seq_eq(&x, &y)
}

pub fn seq_eq(a: &[char], b: &[char]) -> (r: bool)
    ensures
        r == (a@ == b@),
{
    if a.len() != b.len() {
        return false;
    }
    let mut i: usize = 0;
    while i < a.len()
        invariant
            a.len() == b.len(),
            i <= a.len(),
            forall|j: int| 0 <= j < i ==> a@[j] == b@[j],
        decreases a.len() - i,
    {
        if a[i] != b[i] {
            return false;
        }
        i = i + 1;
    }
    assert(a@ =~= b@);
    true
}

pub proof fn lemma_split_on_nonempty(s: Seq<char>, seps: Seq<char>)
    ensures
        split_on(s, seps).len() >= 1,
    decreases s.len(),
{
    if s.len() > 0 {
        lemma_split_on_nonempty(s.drop_last(), seps);
    }
}

pub proof fn lemma_trim_start_range(s: Seq<char>, p: spec_fn(char) -> bool, a: int)
    requires
        0 <= a <= s.len(),
        forall|j: int| 0 <= j < a ==> p(s[j]),
        a == s.len() || !p(s[a]),
    ensures
        trim_start_by(s, p) == s.subrange(a, s.len() as int),
    decreases a,
{
    if a == 0 {
        assert(s.subrange(0, s.len() as int) =~= s);
    } else {
        lemma_trim_start_range(s.drop_first(), p, a - 1);
        assert(s.drop_first().subrange(a - 1, s.len() - 1) =~= s.subrange(a, s.len() as int));
    }
}

proof fn lemma_trim_end_range(s: Seq<char>, p: spec_fn(char) -> bool, b: int)
    requires
        0 <= b <= s.len(),
        forall|j: int| b <= j < s.len() ==> p(s[j]),
        b == 0 || !p(s[b - 1]),
    ensures
        trim_end_by(s, p) == s.subrange(0, b),
    decreases s.len() - b,
{
    if b == s.len() {
        assert(s.subrange(0, b) =~= s);
    } else {
        lemma_trim_end_range(s.drop_last(), p, b);
        assert(s.drop_last().subrange(0, b) =~= s.subrange(0, b));
    }
}

/// The range `a..b` of `s` that `str::trim` keeps.
pub fn trim_range(s: &[char]) -> (r: (usize, usize))
    ensures
        r.0 <= r.1 <= s.len(),
        trim(s@) == s@.subrange(r.0 as int, r.1 as int),
{
    let mut a: usize = 0;
    while a < s.len() && is_whitespace_exec(s[a])
        invariant
            a <= s.len(),
            forall|j: int| 0 <= j < a ==> is_whitespace(s@[j]),
        decreases s.len() - a,
    {
        a = a + 1;
    }
    proof { lemma_trim_start_range(s@, |c: char| is_whitespace(c), a as int); }
    let ghost t = s@.subrange(a as int, s.len() as int);
    let mut b: usize = s.len();
    while b > a && is_whitespace_exec(s[b - 1])
        invariant
            a <= b <= s.len(),
            forall|j: int| b <= j < s.len() ==> is_whitespace(s@[j]),
        decreases b,
    {
        b = b - 1;
    }
    proof {
        lemma_trim_end_range(t, |c: char| is_whitespace(c), (b - a) as int);
        assert(t.subrange(0, (b - a) as int) =~= s@.subrange(a as int, b as int));
    }
    (a, b)
}

/// The range `a..b` of `s` that `str::trim_matches(c)` keeps.
pub fn trim_char_range(s: &[char], c: char) -> (r: (usize, usize))
    ensures
        r.0 <= r.1 <= s.len(),
        trim_char(s@, c) == s@.subrange(r.0 as int, r.1 as int),
{
    let mut a: usize = 0;
    while a < s.len() && s[a] == c
        invariant
            a <= s.len(),
            forall|j: int| 0 <= j < a ==> s@[j] == c,
        decreases s.len() - a,
    {
        a = a + 1;
    }
    proof { lemma_trim_start_range(s@, equals_char(c), a as int); }
    let ghost t = s@.subrange(a as int, s.len() as int);
    let mut b: usize = s.len();
    while b > a && s[b - 1] == c
        invariant
            a <= b <= s.len(),
            forall|j: int| b <= j < s.len() ==> s@[j] == c,
        decreases b,
    {
        b = b - 1;
    }
    proof {
        lemma_trim_end_range(t, equals_char(c), (b - a) as int);
        assert(t.subrange(0, (b - a) as int) =~= s@.subrange(a as int, b as int));
    }
    (a, b)
}

pub fn is_whitespace_exec(c: char) -> (r: bool)
    ensures
        r == is_whitespace(c),
{
    ('\u{9}' <= c && c <= '\u{d}') || c == ' ' || c == '\u{85}' || c == '\u{a0}'
        || c == '\u{1680}' || ('\u{2000}' <= c && c <= '\u{200a}') || c == '\u{2028}'
        || c == '\u{2029}' || c == '\u{202f}' || c == '\u{205f}' || c == '\u{3000}'
}

/// `str::trim` as a new `String`.
pub fn trim_str(s: &str) -> (r: String)
    ensures
        r@ == trim(s@),
{
    let v = chars_of(s);
    let (a, b) = trim_range(&v);
    string_from(vstd::slice::slice_subrange(v.as_slice(), a, b))
}

/// Every `from` replaced by `to` (`str::replace` with single characters).
pub fn replace_chars(s: &[char], from: char, to: char) -> (r: Vec<char>)
    ensures
        r@ == replace_char(s@, from, to),
{
    let mut r: Vec<char> = Vec::new();
    let mut i: usize = 0;
    while i < s.len()
        invariant
            i <= s.len(),
            r@ == replace_char(s@.subrange(0, i as int), from, to),
        decreases s.len() - i,
    {
        let c = s[i];
        r.push(if c == from { to } else { c });
        i = i + 1;
        assert(r@ =~= replace_char(s@.subrange(0, i as int), from, to));
    }
    assert(s@.subrange(0, s.len() as int) =~= s@);
    r
}

/// Index of the last occurrence of `p` in `s`, if any (`str::rfind`).
pub fn rfind(s: &[char], p: &[char]) -> (r: Option<usize>)
    ensures
        match r {
            Some(i) => last_occurrence(s@, p@) == Some(i as int),
            None => last_occurrence(s@, p@) is None,
        },
{
    if p.len() > s.len() {
        assert forall|j: int| !occurs_at(s@, p@, j) by {}
        return None;
    }
    let mut i: usize = s.len() - p.len();
    loop
        invariant
            p.len() <= s.len(),
            i <= s.len() - p.len(),
            forall|j: int| i < j ==> !occurs_at(s@, p@, j),
        decreases i,
    {
        if matches_at(s, p, i) {
            proof {
                let w = choose|w: int| occurs_at(s@, p@, w) && forall|j: int| w < j ==> !occurs_at(s@, p@, j);
                assert(occurs_at(s@, p@, i as int) && forall|j: int| i < j ==> !occurs_at(s@, p@, j));
                assert(w == i) by {
                    if w < i {
                    } else if w > i {
                    }
                }
            }
            return Some(i);
        }
        if i == 0 {
            assert forall|j: int| !occurs_at(s@, p@, j) by {
                if 0 <= j {
                    assert(i <= j);
                }
            }
            return None;
        }
        i = i - 1;
    }
}

pub proof fn lemma_lex_irreflexive(a: Seq<char>)
    ensures
        !lex_lt(a, a),
    decreases a.len(),
{
    if a.len() > 0 {
        lemma_lex_irreflexive(a.drop_first());
    }
}

pub proof fn lemma_lex_transitive(a: Seq<char>, b: Seq<char>, c: Seq<char>)
    requires
        lex_lt(a, b),
        lex_lt(b, c),
    ensures
        lex_lt(a, c),
    decreases a.len(),
{
    if a.len() > 0 && b.len() > 0 && c.len() > 0 {
        if a[0] == b[0] && b[0] == c[0] {
            lemma_lex_transitive(a.drop_first(), b.drop_first(), c.drop_first());
        }
    }
}

pub proof fn lemma_lex_total(a: Seq<char>, b: Seq<char>)
    ensures
        a == b || lex_lt(a, b) || lex_lt(b, a),
    decreases a.len(),
{
    if a.len() > 0 && b.len() > 0 && a[0] == b[0] {
        lemma_lex_total(a.drop_first(), b.drop_first());
        if a.drop_first() == b.drop_first() {
            assert(a =~= seq![a[0]] + a.drop_first());
            assert(b =~= seq![b[0]] + b.drop_first());
        }
    } else if a.len() == 0 && b.len() == 0 {
        assert(a =~= b);
    }
}

pub proof fn lemma_lex_asymmetric(a: Seq<char>, b: Seq<char>)
    requires
        lex_lt(a, b),
    ensures
        !lex_lt(b, a),
{
    if lex_lt(b, a) {
        lemma_lex_transitive(a, b, a);
        lemma_lex_irreflexive(a);
    }
}

pub fn lex_less(a: &[char], b: &[char]) -> (r: bool)
    ensures
        r == lex_lt(a@, b@),
{
    let mut i: usize = 0;
    assert(a@.subrange(0, a@.len() as int) =~= a@);
    assert(b@.subrange(0, b@.len() as int) =~= b@);
    while i < a.len() && i < b.len() && a[i] == b[i]
        invariant
            i <= a.len(),
            i <= b.len(),
            a@.subrange(0, i as int) == b@.subrange(0, i as int),
            lex_lt(a@, b@) == lex_lt(a@.subrange(i as int, a@.len() as int), b@.subrange(i as int, b@.len() as int)),
        decreases a.len() - i,
    {
        let ghost sa = a@.subrange(i as int, a@.len() as int);
        let ghost sb = b@.subrange(i as int, b@.len() as int);
        assert(sa.drop_first() =~= a@.subrange(i + 1, a@.len() as int));
        assert(sb.drop_first() =~= b@.subrange(i + 1, b@.len() as int));
        assert(a@.subrange(0, i + 1) =~= a@.subrange(0, i as int).push(a@[i as int]));
        assert(b@.subrange(0, i + 1) =~= b@.subrange(0, i as int).push(b@[i as int]));
        i = i + 1;
    }
    let ghost sa = a@.subrange(i as int, a@.len() as int);
    let ghost sb = b@.subrange(i as int, b@.len() as int);
    if i == a.len() {
        assert(sa.len() == 0);
        i < b.len()
    } else if i == b.len() {
        false
    } else {
        assert(sa[0] == a@[i as int] && sb[0] == b@[i as int]);
        a[i] < b[i]
    }
}

pub fn clone_opt_str(o: &Option<String>) -> (r: Option<String>)
    ensures
        opt_str(r) == opt_str(*o),
{
    match o {
        Some(s) => Some(s.clone()),
        None => None,
    }
}

pub fn clone_strings(v: &Vec<String>) -> (r: Vec<String>)
    ensures
        strings_view(r@) == strings_view(v@),
{
    let mut r: Vec<String> = Vec::new();
    let mut i: usize = 0;
    while i < v.len()
        invariant
            i <= v.len(),
            strings_view(r@) == strings_view(v@.subrange(0, i as int)),
        decreases v.len() - i,
    {
        let c = v[i].clone();
        let ghost before = r@;
        r.push(c);
        assert(r@ == before.push(c));
        assert(strings_view(r@) =~= strings_view(before).push(v@[i as int]@));
        assert(v@.subrange(0, i + 1) =~= v@.subrange(0, i as int).push(v@[i as int]));
        assert(strings_view(v@.subrange(0, i + 1)) =~= strings_view(v@.subrange(0, i as int)).push(v@[i as int]@));
        i = i + 1;
    }
    assert(v@.subrange(0, v.len() as int) =~= v@);
    r
}

/// `parts.join(sep)`.
pub fn join_strings(parts: &[String], sep: &str) -> (r: String)
    ensures
        r@ == join(strings_view(parts@), sep@),
{
    let ghost ps = strings_view(parts@);
    let mut out = String::new();
    let mut i: usize = 0;
    while i < parts.len()
        invariant
            i <= parts@.len(),
            ps == strings_view(parts@),
            out@ == join(ps.subrange(0, i as int), sep@),
        decreases parts.len() - i,
    {
        let ghost sub = ps.subrange(0, i + 1);
        assert(sub.drop_last() =~= ps.subrange(0, i as int));
        if i > 0 {
            out.append(sep);
        }
        out.append(parts[i].as_str());
        proof {
            if i == 0 {
                assert(out@ =~= sub[0]);
            }
        }
        i = i + 1;
    }
    assert(ps.subrange(0, parts.len() as int) =~= ps);
    out
}

pub open spec fn vec_views(v: Seq<Vec<char>>) -> Seq<Seq<char>> {
    v.map_values(|p: Vec<char>| p@)
}

/// Whether `c` is one of `seps`.
pub fn char_in(seps: &[char], c: char) -> (r: bool)
    ensures
        r == seps@.contains(c),
{
    let mut k: usize = 0;
    while k < seps.len()
        invariant
            k <= seps.len(),
            forall|j: int| 0 <= j < k ==> seps@[j] != c,
        decreases seps.len() - k,
    {
        if seps[k] == c {
            return true;
        }
        k = k + 1;
    }
    false
}

proof fn lemma_split_step(s: Seq<char>, seps: Seq<char>, i: int)
    requires
        0 <= i < s.len(),
    ensures
        split_on(s.subrange(0, i + 1), seps) == (if seps.contains(s[i]) {
            split_on(s.subrange(0, i), seps).push(seq![])
        } else {
            let prev = split_on(s.subrange(0, i), seps);
            prev.update(prev.len() - 1, prev.last().push(s[i]))
        }),
{
    let t = s.subrange(0, i + 1);
    assert(t.drop_last() =~= s.subrange(0, i));
}

/// The pieces of `s` between characters of `seps` (`str::split`).
pub fn split_chars(s: &[char], seps: &[char]) -> (r: Vec<Vec<char>>)
    ensures
        vec_views(r@) == split_on(s@, seps@),
{
    let mut parts: Vec<Vec<char>> = Vec::new();
    let mut cur: Vec<char> = Vec::new();
    let ghost mut acc: Seq<Seq<char>> = seq![];
    let mut i: usize = 0;
    assert(s@.subrange(0, 0) =~= Seq::<char>::empty());
    assert(vec_views(parts@) =~= acc);
    while i < s.len()
        invariant
            i <= s.len(),
            vec_views(parts@) == acc,
            acc.push(cur@) == split_on(s@.subrange(0, i as int), seps@),
        decreases s.len() - i,
    {
        let c = s[i];
        proof { lemma_split_step(s@, seps@, i as int); }
        if char_in(seps, c) {
            let ghost done_view = cur@;
            let done = cur;
            let ghost pv = parts@;
            parts.push(done);
            proof {
                assert(parts@ == pv.push(done));
                assert(vec_views(parts@) =~= vec_views(pv).push(done_view));
                acc = acc.push(done_view);
            }
            cur = Vec::new();
            assert(acc.push(cur@) =~= acc.push(seq![]));
        } else {
            let ghost old_cur = cur@;
            cur.push(c);
            assert(acc.push(cur@) =~= acc.push(old_cur).update(acc.len() as int, old_cur.push(c)));
        }
        i = i + 1;
    }
    assert(s@.subrange(0, s.len() as int) =~= s@);
    let ghost last = cur@;
    let ghost pv = parts@;
    parts.push(cur);
    assert(vec_views(parts@) =~= vec_views(pv).push(last));
    parts
}

// ── Case folding ─────────────────────────────────────────────────────────────

pub fn lower_char_exec(c: char) -> (r: char)
    ensures
        r == lower_char(c),
{
    if 'A' <= c && c <= 'Z' {
        let b: u8 = c as u8;
        assert(b as u32 == c as u32);
        let r = (b + 32) as char;
        r
    } else {
        c
    }
}

pub fn upper_char_exec(c: char) -> (r: char)
    ensures
        r == upper_char(c),
{
    if 'a' <= c && c <= 'z' {
        let b: u8 = c as u8;
        assert(b as u32 == c as u32);
        let r = (b - 32) as char;
        r
    } else {
        c
    }
}

pub fn lower_chars(s: &[char]) -> (r: Vec<char>)
    ensures
        r@ == lower(s@),
{
    let mut r: Vec<char> = Vec::new();
    let mut i: usize = 0;
    while i < s.len()
        invariant
            i <= s.len(),
            r@ == lower(s@.subrange(0, i as int)),
        decreases s.len() - i,
    {
        let c = lower_char_exec(s[i]);
        r.push(c);
        i = i + 1;
        assert(r@ =~= lower(s@.subrange(0, i as int)));
    }
    assert(s@.subrange(0, s.len() as int) =~= s@);
    r
}

pub fn upper_chars(s: &[char]) -> (r: Vec<char>)
    ensures
        r@ == upper(s@),
{
    let mut r: Vec<char> = Vec::new();
    let mut i: usize = 0;
    while i < s.len()
        invariant
            i <= s.len(),
            r@ == upper(s@.subrange(0, i as int)),
        decreases s.len() - i,
    {
        let c = upper_char_exec(s[i]);
        r.push(c);
        i = i + 1;
        assert(r@ =~= upper(s@.subrange(0, i as int)));
    }
    assert(s@.subrange(0, s.len() as int) =~= s@);
    r
}

/// `str::to_ascii_lowercase`.
pub fn to_lower(s: &str) -> (r: String)
    ensures
        r@ == lower(s@),
{
    let v = chars_of(s);
    let l = lower_chars(&v);
    string_from(&l)
}

/// `str::to_ascii_uppercase`.
pub fn to_upper(s: &str) -> (r: String)
    ensures
        r@ == upper(s@),
{
    let v = chars_of(s);
    let l = upper_chars(&v);
    string_from(&l)
}

// ── Searching ────────────────────────────────────────────────────────────────

pub fn matches_at(s: &[char], p: &[char], i: usize) -> (r: bool)
    requires
        i <= s.len(),
    ensures
        r == occurs_at(s@, p@, i as int),
{
    if p.len() > s.len() - i {
        return false;
    }
    let mut k: usize = 0;
    while k < p.len()
        invariant
            i + p.len() <= s.len(),
            k <= p.len(),
            forall|j: int| 0 <= j < k ==> s@[i + j] == p@[j],
        decreases p.len() - k,
    {
        if s[i + k] != p[k] {
            assert(s@.subrange(i as int, i + p.len())[k as int] != p@[k as int]);
            return false;
        }
        k = k + 1;
    }
    assert(s@.subrange(i as int, i + p.len()) =~= p@);
    true
}

pub fn starts_with(s: &[char], p: &[char]) -> (r: bool)
    ensures
        r == has_prefix(s@, p@),
{
    matches_at(s, p, 0)
}

pub fn ends_with(s: &[char], p: &[char]) -> (r: bool)
    ensures
        r == has_suffix(s@, p@),
{
    if p.len() > s.len() {
        return false;
    }
    matches_at(s, p, s.len() - p.len())
}

/// Index of the first occurrence of `p` in `s`, if any.
pub fn find(s: &[char], p: &[char]) -> (r: Option<usize>)
    ensures
        match r {
            Some(i) => first_occurrence(s@, p@) == Some(i as int),
            None => first_occurrence(s@, p@) is None,
        },
{
    let mut i: usize = 0;
    while i < s.len()
        invariant
            i <= s.len(),
            forall|j: int| 0 <= j < i ==> !occurs_at(s@, p@, j),
        decreases s.len() - i,
    {
        if matches_at(s, p, i) {
            proof { lemma_first_occurrence_is(s@, p@, i as int); }
            return Some(i);
        }
        i = i + 1;
    }
    if matches_at(s, p, i) {
        proof { lemma_first_occurrence_is(s@, p@, i as int); }
        return Some(i);
    }
    assert forall|j: int| !occurs_at(s@, p@, j) by {
        if 0 <= j && j + p@.len() <= s@.len() {
            assert(j <= i);
        }
    }
    None
}

proof fn lemma_first_occurrence_is(s: Seq<char>, p: Seq<char>, i: int)
    requires
        occurs_at(s, p, i),
        forall|j: int| 0 <= j < i ==> !occurs_at(s, p, j),
    ensures
        first_occurrence(s, p) == Some(i),
{
    assert(contains(s, p));
    let k = choose|k: int| occurs_at(s, p, k) && forall|j: int| 0 <= j < k ==> !occurs_at(s, p, j);
    assert(k == i) by {
        if k < i {
        } else if k > i {
        }
    }
}

proof fn lemma_least_occurrence(s: Seq<char>, p: Seq<char>, k: int)
    requires
        occurs_at(s, p, k),
    ensures
        exists|i: int| occurs_at(s, p, i) && forall|j: int| 0 <= j < i ==> !occurs_at(s, p, j),
    decreases k,
{
    if exists|j: int| 0 <= j < k && occurs_at(s, p, j) {
        let j = choose|j: int| 0 <= j < k && occurs_at(s, p, j);
        lemma_least_occurrence(s, p, j);
    } else {
        assert(occurs_at(s, p, k) && forall|j: int| 0 <= j < k ==> !occurs_at(s, p, j));
    }
}

/// The first occurrence, where there is one, is an occurrence with none
/// before it.
pub proof fn lemma_first_occurrence(s: Seq<char>, p: Seq<char>)
    ensures
        first_occurrence(s, p) matches Some(i) ==> (occurs_at(s, p, i) && 0 <= i && i + p.len() <= s.len()
            && forall|j: int| 0 <= j < i ==> !occurs_at(s, p, j)),
{
    if contains(s, p) {
        let k = choose|k: int| occurs_at(s, p, k);
        lemma_least_occurrence(s, p, k);
    }
}

pub fn contains_chars(s: &[char], p: &[char]) -> (r: bool)
    ensures
        r == contains(s@, p@),
{
    find(s, p).is_some()
}

/// `haystack.contains(needle)` on string slices.
pub fn str_contains(haystack: &str, needle: &str) -> (r: bool)
    ensures
        r == contains(haystack@, needle@),
{
    let h = chars_of(haystack);
    let n = chars_of(needle);
    contains_chars(&h, &n)
}

pub fn str_starts_with(s: &str, p: &str) -> (r: bool)
    ensures
        r == has_prefix(s@, p@),
{
    let a = chars_of(s);
    let b = chars_of(p);
    starts_with(&a, &b)
}

pub fn str_ends_with(s: &str, p: &str) -> (r: bool)
    ensures
        r == has_suffix(s@, p@),
{
    let a = chars_of(s);
    let b = chars_of(p);
    ends_with(&a, &b)
}

/// Index of the last occurrence of `c` in `s`, if any.
pub fn rfind_char(s: &[char], c: char) -> (r: Option<usize>)
    ensures
        match r {
            Some(i) => last_index_of(s@, c) == Some(i as int),
            None => last_index_of(s@, c) is None,
        },
{
    let mut i: usize = s.len();
    while i > 0
        invariant
            i <= s.len(),
            forall|j: int| i <= j < s.len() ==> s@[j] != c,
        decreases i,
    {
        if s[i - 1] == c {
            let ghost k = choose|k: int|
                0 <= k < s@.len() && s@[k] == c && forall|j: int| k < j < s@.len() ==> s@[j] != c;
            assert(k == i - 1) by {
                if k < i - 1 {
                    assert(s@[i - 1] != c);
                }
            }
            return Some(i - 1);
        }
        i = i - 1;
    }
    None
}

// ── Decimal numbers ──────────────────────────────────────────────────────────

/// Parses an unsigned decimal (`str::parse` for an unsigned type whose
/// maximum is `max`).
pub fn parse_decimal(s: &[char], max: u64) -> (r: Option<u64>)
    ensures
        match r {
            Some(v) => parse_unsigned(s@, max as nat) == Some(v as nat),
            None => parse_unsigned(s@, max as nat) is None,
        },
{
    let start: usize = if s.len() > 0 && s[0] == '+' { 1 } else { 0 };
    let ghost body = if s@.len() > 0 && s@[0] == '+' { s@.drop_first() } else { s@ };
    assert(body =~= s@.subrange(start as int, s@.len() as int));
    if start >= s.len() {
        return None;
    }
    let mut acc: u64 = 0;
    let mut i: usize = start;
    while i < s.len()
        invariant
            start <= i <= s.len(),
            body == s@.subrange(start as int, s@.len() as int),
            body == (if s@.len() > 0 && s@[0] == '+' { s@.drop_first() } else { s@ }),
            all_digits(s@.subrange(start as int, i as int)),
            acc as nat == digits_value(s@.subrange(start as int, i as int)),
            acc <= max,
        decreases s.len() - i,
    {
        let c = s[i];
        if !('0' <= c && c <= '9') {
            assert(body[(i - start) as int] == c);
            assert(!is_digit(body[(i - start) as int]));
            return None;
        }
        let d: u64 = ((c as u32) - ('0' as u32)) as u64;
        let ghost prev = s@.subrange(start as int, i as int);
        let ghost next = s@.subrange(start as int, i + 1);
        assert(next.drop_last() =~= prev);
        assert(all_digits(next));
        assert(next.last() == c);
        assert(digits_value(next) == acc * 10 + d);
        if d > max || acc > (max - d) / 10 {
            // acc * 10 + d > max: every digit run that extends this prefix is out of range.
            assert(acc * 10 + d > max) by (nonlinear_arith)
                requires
                    d > max || acc > (max - d) / 10,
            ;
            proof {
                if all_digits(body) {
                    lemma_digits_value_prefix_le(body, (i + 1 - start) as int);
                    assert(body.subrange(0, (i + 1 - start) as int) =~= next);
                }
            }
            return None;
        }
        assert(acc * 10 + d <= max) by (nonlinear_arith)
            requires
                acc <= (max - d) / 10,
                d <= max,
        ;
        acc = acc * 10 + d;
        i = i + 1;
    }
    assert(s@.subrange(start as int, s@.len() as int) =~= body);
    Some(acc)
}

pub fn parse_decimal_str(s: &str, max: u64) -> (r: Option<u64>)
    ensures
        match r {
            Some(v) => parse_unsigned(s@, max as nat) == Some(v as nat),
            None => parse_unsigned(s@, max as nat) is None,
        },
{
    let v = chars_of(s);
    parse_decimal(&v, max)
}

fn push_decimal(out: &mut String, n: u64)
    ensures
        final(out)@ == old(out)@ + decimal(n as nat),
    decreases n,
{
    if n < 10 {
        let b: u8 = n as u8;
        let c = (b + 48) as char;
        push_char(out, c);
        assert(decimal(n as nat) =~= seq![digit_char(n as nat)]);
    } else {
        push_decimal(out, n / 10);
        let d = n % 10;
        let b: u8 = d as u8;
        let c = (b + 48) as char;
        push_char(out, c);
        assert(decimal(n as nat) == decimal((n / 10) as nat).push(digit_char((n % 10) as nat)));
    }
}

/// Decimal rendering (`to_string`) of an unsigned integer.
pub fn fmt_decimal(n: u64) -> (s: String)
    ensures
        s@ == decimal(n as nat),
{
    let mut s = String::new();
    push_decimal(&mut s, n);
    assert(s@ =~= decimal(n as nat));
    s
}


// ── Floating-point literals ─────────────────────────────────────────────────

/// A mantissa: decimal digits with at most one `.`, and at least one digit.
pub open spec fn float_mantissa(m: Seq<char>) -> bool {
    &&& forall|i: int| 0 <= i < m.len() ==> is_digit(#[trigger] m[i]) || m[i] == '.'
    &&& forall|i: int, j: int| 0 <= i < m.len() && 0 <= j < m.len() && m[i] == '.' && m[j] == '.' ==> i == j
    &&& m.len() > 0
    &&& m != "."@
}

/// An exponent after the `e`: an optional sign, then one or more digits.
pub open spec fn float_exponent(x: Seq<char>) -> bool {
    let y = if x.len() > 0 && (x[0] == '+' || x[0] == '-') { x.drop_first() } else { x };
    y.len() > 0 && all_digits(y)
}

/// A lower-cased number: a mantissa, optionally followed by `e` and an exponent.
pub open spec fn float_number(s: Seq<char>) -> bool {
    ||| float_mantissa(s)
    ||| exists|q: int| 0 <= q < s.len() && s[q] == 'e' && float_mantissa(#[trigger] s.subrange(0, q))
            && float_exponent(s.subrange(q + 1, s.len() as int))
}

/// The strings that `str::parse` accepts for `f32` and `f64`: an optional
/// sign, then `inf`, `infinity`, `nan` or a number, letters in either case.
pub open spec fn float_literal(s: Seq<char>) -> bool {
    let body = lower(if s.len() > 0 && (s[0] == '+' || s[0] == '-') { s.drop_first() } else { s });
    body == "inf"@ || body == "infinity"@ || body == "nan"@ || float_number(body)
}

fn mantissa_exec(s: &[char], lo: usize, hi: usize) -> (r: bool)
    requires
        lo <= hi <= s.len(),
    ensures
        r == float_mantissa(s@.subrange(lo as int, hi as int)),
{
    let ghost m = s@.subrange(lo as int, hi as int);
    let mut dot: Option<usize> = None;
    let mut i: usize = lo;
    while i < hi
        invariant
            lo <= i <= hi <= s.len(),
            m == s@.subrange(lo as int, hi as int),
            forall|k: int| lo <= k < i ==> is_digit(#[trigger] s@[k]) || s@[k] == '.',
            match dot {
                Some(d) => lo <= d < i && s@[d as int] == '.' && forall|k: int| lo <= k < i && #[trigger] s@[k] == '.' ==> k == d,
                None => forall|k: int| lo <= k < i ==> #[trigger] s@[k] != '.',
            },
        decreases hi - i,
    {
        let c = s[i];
        if c == '.' {
            if dot.is_some() {
                let d = dot.unwrap();
                assert(m[d - lo] == '.' && m[i - lo] == '.');
                return false;
            }
            dot = Some(i);
        } else if !('0' <= c && c <= '9') {
            assert(m[i - lo] == c);
            return false;
        }
        i = i + 1;
    }
    assert forall|k: int| 0 <= k < m.len() implies is_digit(#[trigger] m[k]) || m[k] == '.' by {
        assert(m[k] == s@[lo + k]);
    }
    assert forall|a: int, b: int| 0 <= a < m.len() && 0 <= b < m.len() && m[a] == '.' && m[b] == '.' implies a == b by {
        assert(m[a] == s@[lo + a] && m[b] == s@[lo + b]);
    }
    if hi == lo {
        return false;
    }
    if hi - lo == 1 && s[lo] == '.' {
        assert(m =~= "."@) by { reveal_strlit("."); }
        return false;
    }
    proof {
        reveal_strlit(".");
        if m == "."@ {
            assert(m.len() == 1 && m[0] == '.');
        }
    }
    true
}

fn exponent_exec(s: &[char], lo: usize) -> (r: bool)
    requires
        lo <= s.len(),
    ensures
        r == float_exponent(s@.subrange(lo as int, s@.len() as int)),
{
    let ghost x = s@.subrange(lo as int, s@.len() as int);
    let start: usize = if lo < s.len() && (s[lo] == '+' || s[lo] == '-') { lo + 1 } else { lo };
    let ghost y = if x.len() > 0 && (x[0] == '+' || x[0] == '-') { x.drop_first() } else { x };
    assert(y =~= s@.subrange(start as int, s@.len() as int));
    if start >= s.len() {
        return false;
    }
    let mut i: usize = start;
    while i < s.len()
        invariant
            start <= i <= s.len(),
            y == s@.subrange(start as int, s@.len() as int),
            x == s@.subrange(lo as int, s@.len() as int),
            y == (if x.len() > 0 && (x[0] == '+' || x[0] == '-') { x.drop_first() } else { x }),
            forall|k: int| start <= k < i ==> is_digit(#[trigger] s@[k]),
        decreases s.len() - i,
    {
        if !('0' <= s[i] && s[i] <= '9') {
            assert(y[i - start] == s@[i as int]);
            return false;
        }
        i = i + 1;
    }
    assert forall|k: int| 0 <= k < y.len() implies is_digit(#[trigger] y[k]) by {
        assert(y[k] == s@[start + k]);
    }
    true
}

fn number_exec(s: &[char]) -> (r: bool)
    ensures
        r == float_number(s@),
{
    let mut q: usize = 0;
    while q < s.len() && s[q] != 'e'
        invariant
            q <= s.len(),
            forall|k: int| 0 <= k < q ==> s@[k] != 'e',
        decreases s.len() - q,
    {
        q = q + 1;
    }
    if q == s.len() {
        assert(s@.subrange(0, s@.len() as int) =~= s@);
        let r = mantissa_exec(s, 0, s.len());
        proof {
            if !r {
                assert forall|p: int| 0 <= p < s@.len() && s@[p] == 'e' implies !(float_mantissa(#[trigger] s@.subrange(0, p))
                    && float_exponent(s@.subrange(p + 1, s@.len() as int))) by {
                    assert(s@[p] != 'e');
                }
            }
        }
        return r;
    }
    let m = mantissa_exec(s, 0, q);
    let x = exponent_exec(s, q + 1);
    proof {
        let whole = s@;
        if float_mantissa(whole) {
            assert(whole[q as int] == 'e');
            assert(!(is_digit(whole[q as int]) || whole[q as int] == '.'));
        }
        assert forall|p: int| 0 <= p < whole.len() && whole[p] == 'e' && float_mantissa(#[trigger] whole.subrange(0, p))
            && float_exponent(whole.subrange(p + 1, whole.len() as int)) implies p == q by {
            if p > q {
                let mm = whole.subrange(0, p);
                assert(mm[q as int] == 'e');
                assert(!(is_digit(mm[q as int]) || mm[q as int] == '.'));
            }
        }
    }
    m && x
}

/// Whether `str::parse::<f64>` (or `f32`) accepts `s`.
pub fn is_float_literal(s: &str) -> (r: bool)
    ensures
        r == float_literal(s@),
{
    let v = chars_of(s);
    let start: usize = if v.len() > 0 && (v[0] == '+' || v[0] == '-') { 1 } else { 0 };
    let mut body: Vec<char> = Vec::new();
    let mut i: usize = start;
    while i < v.len()
        invariant
            start <= i <= v.len(),
            body@ == v@.subrange(start as int, i as int),
        decreases v.len() - i,
    {
        body.push(v[i]);
        i = i + 1;
        assert(body@ =~= v@.subrange(start as int, i as int));
    }
    let ghost raw = if s@.len() > 0 && (s@[0] == '+' || s@[0] == '-') { s@.drop_first() } else { s@ };
    assert(raw =~= body@);
    let l = lower_chars(&body);
    let inf: [char; 3] = ['i', 'n', 'f'];
    let infinity: [char; 8] = ['i', 'n', 'f', 'i', 'n', 'i', 't', 'y'];
    let nan: [char; 3] = ['n', 'a', 'n'];
    let special = seq_eq(&l, &inf) || seq_eq(&l, &infinity) || seq_eq(&l, &nan);
    proof {
        reveal_strlit("inf");
        reveal_strlit("infinity");
        reveal_strlit("nan");
        assert(inf@ =~= "inf"@);
        assert(infinity@ =~= "infinity"@);
        assert(nan@ =~= "nan"@);
    }
    if special {
        return true;
    }
    number_exec(&l)
}

} // verus!
