//! Character-level text: what the other modules say about strings, and the
//! string operations they share.

use vstd::prelude::*;

verus! {

/// The characters that separate words: those with the Unicode `White_Space`
/// property.
pub open spec fn is_white(c: char) -> bool {
    let n = c as int;
    ||| 0x9 <= n <= 0xd
    ||| n == 0x20
    ||| n == 0x85
    ||| n == 0xa0
    ||| n == 0x1680
    ||| 0x2000 <= n <= 0x200a
    ||| n == 0x2028
    ||| n == 0x2029
    ||| n == 0x202f
    ||| n == 0x205f
    ||| n == 0x3000
}

/// `s` without its leading white space.
pub open spec fn trim_left(s: Seq<char>) -> Seq<char>
    decreases s.len(),
{
    if s.len() > 0 && is_white(s[0]) {
        trim_left(s.drop_first())
    } else {
        s
    }
}

/// `s` without its trailing white space.
pub open spec fn trim_right(s: Seq<char>) -> Seq<char>
    decreases s.len(),
{
    if s.len() > 0 && is_white(s.last()) {
        trim_right(s.drop_last())
    } else {
        s
    }
}

/// `s` without white space at either end.
pub open spec fn trimmed(s: Seq<char>) -> Seq<char> {
    trim_right(trim_left(s))
}

/// The decimal digit for `n`, which is below ten.
pub open spec fn digit(n: nat) -> char {
    if n == 0 {
        '0'
    } else if n == 1 {
        '1'
    } else if n == 2 {
        '2'
    } else if n == 3 {
        '3'
    } else if n == 4 {
        '4'
    } else if n == 5 {
        '5'
    } else if n == 6 {
        '6'
    } else if n == 7 {
        '7'
    } else if n == 8 {
        '8'
    } else {
        '9'
    }
}

/// `n` in decimal, without leading zeros.
pub open spec fn decimal(n: nat) -> Seq<char>
    decreases n,
{
    if n < 10 {
        seq![digit(n)]
    } else {
        decimal(n / 10).push(digit(n % 10))
    }
}

/// `n` spaces.
pub open spec fn spaces(n: nat) -> Seq<char> {
    Seq::new(n, |i: int| ' ')
}

/// The texts of a sequence of strings.
pub open spec fn texts(v: Seq<String>) -> Seq<Seq<char>> {
    Seq::new(v.len(), |i: int| v[i]@)
}

/// The text of an optional string.
pub open spec fn opt_text(o: Option<String>) -> Option<Seq<char>> {
    match o {
        Some(s) => Some(s@),
        None => None,
    }
}

/// `o`, or `other` where there is none.
pub open spec fn text_or(o: Option<Seq<char>>, other: Seq<char>) -> Seq<char> {
    match o {
        Some(s) => s,
        None => other,
    }
}

/// `parts` one after another, with `sep` between neighbours.
pub open spec fn joined(parts: Seq<Seq<char>>, sep: Seq<char>) -> Seq<char>
    decreases parts.len(),
{
    if parts.len() == 0 {
        seq![]
    } else if parts.len() == 1 {
        parts[0]
    } else {
        joined(parts.drop_last(), sep) + sep + parts.last()
    }
}

/// `a` comes before `b` in the order of strings: by code points, a proper
/// prefix first.
pub open spec fn text_before(a: Seq<char>, b: Seq<char>) -> bool
    decreases a.len(),
{
    if b.len() == 0 {
        false
    } else if a.len() == 0 {
        true
    } else if a[0] != b[0] {
        (a[0] as int) < (b[0] as int)
    } else {
        text_before(a.drop_first(), b.drop_first())
    }
}

/// `String::push`: appends one character.
pub assume_specification[ String::push ](s: &mut String, c: char)
    ensures
        final(s)@ == old(s)@.push(c),
;

/// `String::pop`: removes the last character and returns it; `None` when there
/// is none.
pub assume_specification[ String::pop ](s: &mut String) -> (r: Option<char>)
    ensures
        old(s)@.len() == 0 ==> r is None && final(s)@ == old(s)@,
        old(s)@.len() > 0 ==> r == Some(old(s)@.last()) && final(s)@ == old(s)@.drop_last(),
;

/// Whether `c` is white space.
pub fn is_whitespace(c: char) -> (r: bool)
    ensures
        r == is_white(c),
{
    let n: u32 = c as u32;
    (0x9 <= n && n <= 0xd) || n == 0x20 || n == 0x85 || n == 0xa0 || n == 0x1680 || (0x2000 <= n
        && n <= 0x200a) || n == 0x2028 || n == 0x2029 || n == 0x202f || n == 0x205f || n == 0x3000
}

/// The characters of `s`.
pub fn chars_of(s: &str) -> (r: Vec<char>)
    ensures
        r@ == s@,
{
    let mut out: Vec<char> = Vec::new();
    for c in it: s.chars()
        invariant
            out@ == it.seq().take(it.index() as int),
            it.seq() == s@,
    {
        out.push(c);
        assert(out@ == it.seq().take(it.index() + 1));
    }
    assert(s@.take(s@.len() as int) == s@);
    out
}

proof fn lemma_trim_left_skip(s: Seq<char>, n: int)
    requires
        0 <= n <= s.len(),
        forall|i: int| 0 <= i < n ==> is_white(#[trigger] s[i]),
    ensures
        trim_left(s) == trim_left(s.skip(n)),
    decreases n,
{
    if n > 0 {
        assert(s.drop_first().skip(n - 1) == s.skip(n));
        lemma_trim_left_skip(s.drop_first(), n - 1);
    } else {
        assert(s.skip(0) == s);
    }
}

proof fn lemma_trim_right_take(s: Seq<char>, n: int)
    requires
        0 <= n <= s.len(),
        forall|i: int| n <= i < s.len() ==> is_white(#[trigger] s[i]),
    ensures
        trim_right(s) == trim_right(s.take(n)),
    decreases s.len() - n,
{
    if n < s.len() {
        assert(s.drop_last().take(n) == s.take(n));
        lemma_trim_right_take(s.drop_last(), n);
    } else {
        assert(s.take(n) == s);
    }
}

proof fn lemma_trim_left_shape(s: Seq<char>)
    ensures
        trim_left(s).len() > 0 ==> !is_white(trim_left(s)[0]),
    decreases s.len(),
{
    if s.len() > 0 && is_white(s[0]) {
        lemma_trim_left_shape(s.drop_first());
    }
}

proof fn lemma_trim_right_shape(s: Seq<char>)
    ensures
        trim_right(s).len() <= s.len(),
        trim_right(s) == s.take(trim_right(s).len() as int),
        trim_right(s).len() > 0 ==> !is_white(trim_right(s).last()),
    decreases s.len(),
{
    if s.len() > 0 && is_white(s.last()) {
        lemma_trim_right_shape(s.drop_last());
        let n = trim_right(s).len() as int;
        assert(s.drop_last().take(n) =~= s.take(n));
    } else {
        assert(s.take(s.len() as int) =~= s);
    }
}

/// What is trimmed has no white space at its ends, and trimming it again changes
/// nothing.
pub proof fn lemma_trimmed(s: Seq<char>)
    ensures
        trimmed(s).len() > 0 ==> !is_white(trimmed(s)[0]) && !is_white(trimmed(s).last()),
        trimmed(trimmed(s)) == trimmed(s),
{
    lemma_trim_left_shape(s);
    lemma_trim_right_shape(trim_left(s));
}

/// What is trimmed is the start of what is trimmed on the left alone.
pub proof fn lemma_trimmed_starts(s: Seq<char>)
    ensures
        trimmed(s).len() <= trim_left(s).len(),
        trimmed(s) == trim_left(s).take(trimmed(s).len() as int),
{
    lemma_trim_right_shape(trim_left(s));
}

/// `s` without its leading white space.
pub fn trim_start(s: &str) -> (r: &str)
    ensures
        r@ == trim_left(s@),
{
    let cs = chars_of(s);
    let mut a: usize = 0;
    while a < cs.len() && is_whitespace(cs[a])
        invariant
            a <= cs.len(),
            forall|i: int| 0 <= i < a ==> is_white(#[trigger] cs@[i]),
        decreases cs.len() - a,
    {
        a += 1;
    }
    proof {
        lemma_trim_left_skip(cs@, a as int);
        assert(cs@.skip(a as int) == cs@.subrange(a as int, cs@.len() as int));
    }
    s.substring_char(a, cs.len())
}

/// Whether `c` is in `s`.
pub fn has_char(s: &str, c: char) -> (r: bool)
    ensures
        r == s@.contains(c),
{
    let cs = chars_of(s);
    let mut i: usize = 0;
    while i < cs.len()
        invariant
            i <= cs.len(),
            cs@ == s@,
            forall|j: int| 0 <= j < i ==> #[trigger] cs@[j] != c,
        decreases cs.len() - i,
    {
        if cs[i] == c {
            assert(cs@[i as int] == c);
            return true;
        }
        i += 1;
    }
    false
}

/// `s` without white space at either end.
pub fn trim(s: &str) -> (r: &str)
    ensures
        r@ == trimmed(s@),
{
    let cs = chars_of(s);
    let mut a: usize = 0;
    while a < cs.len() && is_whitespace(cs[a])
        invariant
            a <= cs.len(),
            forall|i: int| 0 <= i < a ==> is_white(#[trigger] cs@[i]),
        decreases cs.len() - a,
    {
        a += 1;
    }
    let mut b: usize = cs.len();
    while a < b && is_whitespace(cs[b - 1])
        invariant
            a <= b <= cs.len(),
            forall|i: int| b <= i < cs.len() ==> is_white(#[trigger] cs@[i]),
        decreases b,
    {
        b -= 1;
    }
    proof {
        lemma_trim_left_skip(cs@, a as int);
        let rest = cs@.skip(a as int);
        assert(trim_left(cs@) == rest);
        lemma_trim_right_take(rest, b - a);
        assert(rest.take(b - a) == cs@.subrange(a as int, b as int));
    }
    s.substring_char(a, b)
}

/// Whether `s` begins with `prefix`.
pub fn starts_with(s: &str, prefix: &str) -> (r: bool)
    ensures
        r == prefix@.is_prefix_of(s@),
{
    let a = chars_of(s);
    let p = chars_of(prefix);
    if p.len() > a.len() {
        return false;
    }
    let mut i: usize = 0;
    while i < p.len()
        invariant
            i <= p.len() <= a.len(),
            p@ == prefix@,
            a@ == s@,
            forall|j: int| 0 <= j < i ==> #[trigger] p@[j] == a@[j],
        decreases p.len() - i,
    {
        if p[i] != a[i] {
            proof {
                if prefix@.is_prefix_of(s@) {
                    assert(a@.subrange(0, p@.len() as int)[i as int] == p@[i as int]);
                }
            }
            return false;
        }
        i += 1;
    }
    assert(p@ =~= a@.subrange(0, p@.len() as int));
    true
}

/// Whether two texts are the same.
pub fn same_text(a: &str, b: &str) -> (r: bool)
    ensures
        r == (a@ == b@),
{
    let r = a.unicode_len() == b.unicode_len() && starts_with(a, b);
    proof {
        if r {
            assert(a@.subrange(0, b@.len() as int) =~= a@);
        } else if a@ == b@ {
            assert(a@.subrange(0, b@.len() as int) =~= b@);
        }
    }
    r
}

/// The digit character for `n`.
fn digit_char(n: u64) -> (r: char)
    requires
        n < 10,
    ensures
        r == digit(n as nat),
{
    if n == 0 {
        '0'
    } else if n == 1 {
        '1'
    } else if n == 2 {
        '2'
    } else if n == 3 {
        '3'
    } else if n == 4 {
        '4'
    } else if n == 5 {
        '5'
    } else if n == 6 {
        '6'
    } else if n == 7 {
        '7'
    } else if n == 8 {
        '8'
    } else {
        '9'
    }
}

/// `n` in decimal.
pub fn to_decimal(n: u64) -> (r: String)
    ensures
        r@ == decimal(n as nat),
    decreases n,
{
    if n < 10 {
        let mut out = String::new();
        out.push(digit_char(n));
        assert(out@ == seq![digit(n as nat)]);
        out
    } else {
        let mut out = to_decimal(n / 10);
        out.push(digit_char(n % 10));
        out
    }
}

/// `n` spaces.
pub fn spaces_string(n: usize) -> (r: String)
    ensures
        r@ == spaces(n as nat),
{
    let mut out = String::new();
    let mut i: usize = 0;
    while i < n
        invariant
            i <= n,
            out@ == spaces(i as nat),
        decreases n - i,
    {
        out.push(' ');
        assert(out@ == spaces((i + 1) as nat));
        i += 1;
    }
    out
}

/// `n` times `c`.
pub open spec fn repeated(c: char, n: nat) -> Seq<char> {
    Seq::new(n, |i: int| c)
}

/// `n` times `c`.
pub fn repeat_char(c: char, n: usize) -> (r: String)
    ensures
        r@ == repeated(c, n as nat),
{
    let mut out = String::new();
    assert(out@ =~= repeated(c, 0));
    let mut i: usize = 0;
    while i < n
        invariant
            i <= n,
            out@ == repeated(c, i as nat),
        decreases n - i,
    {
        out.push(c);
        assert(out@ =~= repeated(c, (i + 1) as nat));
        i += 1;
    }
    out
}

/// `s` with spaces in front up to `n` characters.
pub open spec fn right_aligned(s: Seq<char>, n: nat) -> Seq<char> {
    if s.len() < n {
        spaces((n - s.len()) as nat) + s
    } else {
        s
    }
}

/// `s` with spaces behind it up to `n` characters.
pub open spec fn left_aligned(s: Seq<char>, n: nat) -> Seq<char> {
    if s.len() < n {
        s + spaces((n - s.len()) as nat)
    } else {
        s
    }
}

/// `s` with spaces in front up to `n` characters.
pub fn align_right(s: &str, n: usize) -> (r: String)
    ensures
        r@ == right_aligned(s@, n as nat),
{
    let len: usize = s.unicode_len();
    if len < n {
        let mut out = spaces_string(n - len);
        out.append(s);
        out
    } else {
        s.to_owned()
    }
}

/// `s` with spaces behind it up to `n` characters.
pub fn align_left(s: &str, n: usize) -> (r: String)
    ensures
        r@ == left_aligned(s@, n as nat),
{
    let len: usize = s.unicode_len();
    let mut out = s.to_owned();
    if len < n {
        out.append(spaces_string(n - len).as_str());
    }
    out
}

/// `parts` joined with `sep`.
pub fn join(parts: &[String], sep: &str) -> (r: String)
    ensures
        r@ == joined(texts(parts@), sep@),
{
    let mut out = String::new();
    let mut i: usize = 0;
    while i < parts.len()
        invariant
            i <= parts.len(),
            out@ == joined(texts(parts@).take(i as int), sep@),
        decreases parts.len() - i,
    {
        if i > 0 {
            out.append(sep);
        }
        out.append(parts[i].as_str());
        assert(texts(parts@).take(i + 1).drop_last() == texts(parts@).take(i as int));
        i += 1;
    }
    assert(texts(parts@).take(parts@.len() as int) == texts(parts@));
    out
}

/// Whether two lists of lines hold the same text.
pub fn same_lines(a: &[String], b: &[String]) -> (r: bool)
    ensures
        r == (texts(a@) == texts(b@)),
{
    if a.len() != b.len() {
        assert(texts(a@).len() != texts(b@).len());
        return false;
    }
    let mut i: usize = 0;
    while i < a.len()
        invariant
            i <= a.len(),
            a.len() == b.len(),
            forall|j: int| 0 <= j < i ==> #[trigger] a@[j]@ == b@[j]@,
        decreases a.len() - i,
    {
        if !same_text(a[i].as_str(), b[i].as_str()) {
            assert(texts(a@)[i as int] != texts(b@)[i as int]);
            return false;
        }
        i += 1;
    }
    assert(texts(a@) =~= texts(b@));
    true
}

/// A copy of `lines`.
pub fn copy_lines(lines: &[String]) -> (r: Vec<String>)
    ensures
        texts(r@) == texts(lines@),
{
    let mut out: Vec<String> = Vec::new();
    let mut i: usize = 0;
    while i < lines.len()
        invariant
            i <= lines.len(),
            out@.len() == i,
            forall|j: int| 0 <= j < i ==> #[trigger] out@[j]@ == lines@[j]@,
        decreases lines.len() - i,
    {
        out.push(lines[i].clone());
        i += 1;
    }
    assert(texts(out@) =~= texts(lines@));
    out
}

/// Whether the code point of `c` is below that of `d`.
fn char_below(c: char, d: char) -> (r: bool)
    ensures
        r == ((c as int) < (d as int)),
{
    (c as u32) < (d as u32)
}

/// Whether `a` comes before `b` in the order of strings.
pub fn is_before(a: &str, b: &str) -> (r: bool)
    ensures
        r == text_before(a@, b@),
{
    let x = chars_of(a);
    let y = chars_of(b);
    let mut i: usize = 0;
    assert(x@.skip(0) == x@ && y@.skip(0) == y@);
    while i < x.len() && i < y.len() && x[i] == y[i]
        invariant
            i <= x.len(),
            i <= y.len(),
            x@ == a@,
            y@ == b@,
            text_before(a@, b@) == text_before(x@.skip(i as int), y@.skip(i as int)),
        decreases x.len() - i,
    {
        assert(x@.skip(i as int).drop_first() == x@.skip(i + 1));
        assert(y@.skip(i as int).drop_first() == y@.skip(i + 1));
        i += 1;
    }
    if i == y.len() {
        false
    } else if i == x.len() {
        true
    } else {
        assert(x@.skip(i as int)[0] == x@[i as int] && y@.skip(i as int)[0] == y@[i as int]);
        char_below(x[i], y[i])
    }
}

/// No text comes before itself.
pub proof fn lemma_text_before_irreflexive(a: Seq<char>)
    ensures
        !text_before(a, a),
    decreases a.len(),
{
    if a.len() > 0 {
        lemma_text_before_irreflexive(a.drop_first());
    }
}

/// The order of texts is transitive.
pub proof fn lemma_text_before_transitive(a: Seq<char>, b: Seq<char>, c: Seq<char>)
    requires
        text_before(a, b),
        text_before(b, c),
    ensures
        text_before(a, c),
    decreases a.len(),
{
    if a.len() > 0 && a[0] == b[0] && b[0] == c[0] {
        lemma_text_before_transitive(a.drop_first(), b.drop_first(), c.drop_first());
    }
}

/// Of two different texts one comes before the other.
pub proof fn lemma_text_before_total(a: Seq<char>, b: Seq<char>)
    ensures
        a == b || text_before(a, b) || text_before(b, a),
    decreases a.len(),
{
    if a.len() > 0 && b.len() > 0 && a[0] == b[0] {
        lemma_text_before_total(a.drop_first(), b.drop_first());
        if a.drop_first() == b.drop_first() {
            assert(a == seq![a[0]] + a.drop_first());
            assert(b == seq![b[0]] + b.drop_first());
        }
    } else if a.len() == 0 && b.len() == 0 {
        assert(a == b);
    }
}

/// Trimming takes white space off both ends and nothing else: what it takes off is white
/// space, and what is left starts and ends with something else. Of a text with anything
/// but white space in it, something is left.
pub proof fn lemma_trim_takes_white(s: Seq<char>)
    ensures
        exists|a: int, b: int|
            0 <= a <= b <= s.len() && #[trigger] s.subrange(a, b) == trimmed(s) && (forall|i: int|
                0 <= i < a || b <= i < s.len() ==> is_white(#[trigger] s[i])),
        trimmed(s).len() > 0 ==> !is_white(trimmed(s)[0]) && !is_white(trimmed(s).last()),
        trimmed(s).len() > 0 <==> exists|i: int| 0 <= i < s.len() && !is_white(#[trigger] s[i]),
{
    lemma_trim_left_takes(s);
    let rest = trim_left(s);
    lemma_trim_right_takes(rest);
    lemma_trimmed(s);
    let a = s.len() - rest.len();
    let b = a + trimmed(s).len();
    assert(s.subrange(a, b) =~= trimmed(s)) by {
        assert(rest =~= s.skip(a));
    }
    assert forall|i: int| 0 <= i < a || b <= i < s.len() implies is_white(#[trigger] s[i]) by {
        if i >= b {
            assert(rest[i - a] == s[i]);
        }
    }
    if trimmed(s).len() > 0 {
        assert(s[a] == trimmed(s)[0]);
    }
}

proof fn lemma_trim_left_takes(s: Seq<char>)
    ensures
        trim_left(s).len() <= s.len(),
        trim_left(s) == s.skip(s.len() - trim_left(s).len()),
        forall|i: int| 0 <= i < s.len() - trim_left(s).len() ==> is_white(#[trigger] s[i]),
    decreases s.len(),
{
    if s.len() > 0 && is_white(s[0]) {
        let rest = s.drop_first();
        lemma_trim_left_takes(rest);
        assert(trim_left(s) =~= s.skip(s.len() - trim_left(s).len()));
        assert forall|i: int| 0 <= i < s.len() - trim_left(s).len() implies is_white(
            #[trigger] s[i],
        ) by {
            if i > 0 {
                assert(rest[i - 1] == s[i]);
            }
        }
    } else {
        assert(s.skip(0) =~= s);
    }
}

proof fn lemma_trim_right_takes(s: Seq<char>)
    ensures
        trim_right(s).len() <= s.len(),
        trim_right(s) == s.take(trim_right(s).len() as int),
        forall|i: int| trim_right(s).len() <= i < s.len() ==> is_white(#[trigger] s[i]),
    decreases s.len(),
{
    lemma_trim_right_shape(s);
    if s.len() > 0 && is_white(s.last()) {
        let rest = s.drop_last();
        lemma_trim_right_takes(rest);
        assert forall|i: int| trim_right(s).len() <= i < s.len() implies is_white(
            #[trigger] s[i],
        ) by {
            if i < rest.len() {
                assert(rest[i] == s[i]);
            }
        }
    }
}

/// The last digit of a number in decimal is what is left of it by ten, and the digits
/// before are the rest of it.
pub proof fn lemma_decimal_digits(n: nat)
    ensures
        decimal(n).len() > 0,
        decimal(n).last() as int == '0' as int + n % 10,
        n >= 10 ==> decimal(n).drop_last() == decimal(n / 10),
        n < 10 ==> decimal(n).len() == 1,
{
    if n >= 10 {
        assert(decimal(n).drop_last() =~= decimal(n / 10));
    }
}

/// What is joined is the parts in order with the separator between them, and nothing
/// before the first or behind the last.
pub proof fn lemma_joined_one_more(parts: Seq<Seq<char>>, part: Seq<char>, sep: Seq<char>)
    ensures
        joined(seq![part], sep) == part,
        joined(Seq::<Seq<char>>::empty(), sep).len() == 0,
        parts.len() > 0 ==> joined(parts.push(part), sep) == joined(parts, sep) + sep + part,
{
    assert(parts.push(part).drop_last() =~= parts);
}

/// Leading white space is trimmed off whatever is behind it.
pub proof fn lemma_trim_lead(lead: Seq<char>, s: Seq<char>)
    requires
        forall|i: int| 0 <= i < lead.len() ==> is_white(#[trigger] lead[i]),
        s.len() == 0 || !is_white(s[0]),
    ensures
        trim_left(lead + s) == s,
        trimmed(lead + s) == trim_right(s),
{
    let all = lead + s;
    assert forall|i: int| 0 <= i < lead.len() implies is_white(#[trigger] all[i]) by {
        assert(all[i] == lead[i]);
    }
    lemma_trim_left_skip(all, lead.len() as int);
    assert(all.skip(lead.len() as int) =~= s);
}

/// Trimming the end keeps everything up to what is not white.
pub proof fn lemma_trim_keeps(s: Seq<char>, k: int)
    requires
        0 <= k < s.len(),
        !is_white(s[k]),
    ensures
        trim_right(s).len() > k,
{
    lemma_trim_right_takes(s);
}

/// A text in a column: the text itself, and as many spaces as it is shorter than
/// the column, behind it or in front of it.
pub proof fn lemma_column(s: Seq<char>, n: nat, i: int)
    ensures
        s.len() >= n ==> left_aligned(s, n) == s && right_aligned(s, n) == s,
        s.len() < n ==> {
            &&& left_aligned(s, n).len() == n
            &&& right_aligned(s, n).len() == n
            &&& 0 <= i < s.len() ==> left_aligned(s, n)[i] == s[i]
            &&& s.len() <= i < n ==> left_aligned(s, n)[i] == ' '
            &&& 0 <= i < n - s.len() ==> right_aligned(s, n)[i] == ' '
            &&& n - s.len() <= i < n ==> right_aligned(s, n)[i] == s[i - (n - s.len())]
        },
{
}

/// Texts are ordered by the first character in which they differ; one that the other
/// starts with comes before it.
pub proof fn lemma_text_before_by_first_difference(start: Seq<char>, a: Seq<char>, b: Seq<char>)
    requires
        b.len() > 0,
        a.len() == 0 || a[0] < b[0],
    ensures
        text_before(start + a, start + b),
        !text_before(start + b, start + a),
    decreases start.len(),
{
    if start.len() == 0 {
        assert(start + a =~= a);
        assert(start + b =~= b);
    } else {
        let rest = start.drop_first();
        lemma_text_before_by_first_difference(rest, a, b);
        assert((start + a).drop_first() =~= rest + a);
        assert((start + b).drop_first() =~= rest + b);
    }
}

/// White space: the space, the tab, what ends a line or a page, the spaces that do not
/// break or have a width of their own; and no letter, digit or mark of ASCII.
pub proof fn lemma_white_space(c: char)
    ensures
        is_white(c) <==> seq![
            '\t',
            '\n',
            '\u{b}',
            '\u{c}',
            '\r',
            ' ',
            '\u{85}',
            '\u{a0}',
            '\u{1680}',
            '\u{2000}',
            '\u{2001}',
            '\u{2002}',
            '\u{2003}',
            '\u{2004}',
            '\u{2005}',
            '\u{2006}',
            '\u{2007}',
            '\u{2008}',
            '\u{2009}',
            '\u{200a}',
            '\u{2028}',
            '\u{2029}',
            '\u{202f}',
            '\u{205f}',
            '\u{3000}',
        ].contains(c),
        '!' <= c <= '~' ==> !is_white(c),
{
    let all = seq![
        '\t',
        '\n',
        '\u{b}',
        '\u{c}',
        '\r',
        ' ',
        '\u{85}',
        '\u{a0}',
        '\u{1680}',
        '\u{2000}',
        '\u{2001}',
        '\u{2002}',
        '\u{2003}',
        '\u{2004}',
        '\u{2005}',
        '\u{2006}',
        '\u{2007}',
        '\u{2008}',
        '\u{2009}',
        '\u{200a}',
        '\u{2028}',
        '\u{2029}',
        '\u{202f}',
        '\u{205f}',
        '\u{3000}',
    ];
    let n = c as int;
    if is_white(c) {
        let k = if 0x9 <= n <= 0xd {
            n - 0x9
        } else if n == 0x20 {
            5
        } else if n == 0x85 {
            6
        } else if n == 0xa0 {
            7
        } else if n == 0x1680 {
            8
        } else if 0x2000 <= n <= 0x200a {
            n - 0x2000 + 9
        } else if n == 0x2028 {
            20
        } else if n == 0x2029 {
            21
        } else if n == 0x202f {
            22
        } else if n == 0x205f {
            23
        } else {
            24
        };
        assert(all[k] == c);
    }
    if all.contains(c) {
        let k = choose|k: int| 0 <= k < all.len() && all[k] == c;
        assert(is_white(all[k]));
    }
}

} // verus!
