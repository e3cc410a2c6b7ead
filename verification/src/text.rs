//! Text primitives: character classes, trimming, searching, splitting and
//! decimal notation, each stated over the sequence of characters of a string.
use vstd::prelude::*;

verus! {

/// `String::push` appends one character at the end of the string.
pub assume_specification[ std::string::String::push ](s: &mut std::string::String, c: char)
    ensures
        final(s)@ == old(s)@.push(c),
;

// ---------------------------------------------------------------------------
// Conversions

/// The texts held by a list of strings.
pub open spec fn texts(v: Seq<String>) -> Seq<Seq<char>> {
    Seq::new(v.len(), |i: int| v[i]@)
}

/// The text held by an optional string.
pub open spec fn opt_text(o: Option<String>) -> Option<Seq<char>> {
    match o {
        Some(s) => Some(s@),
        None => None,
    }
}

/// The text of an optional borrowed string.
pub open spec fn opt_str(o: Option<&str>) -> Option<Seq<char>> {
    match o {
        Some(s) => Some(s@),
        None => None,
    }
}

/// The characters of `s`, in order.
pub fn to_chars(s: &str) -> (r: Vec<char>)
    ensures
        r@ == s@,
{
    let mut r: Vec<char> = Vec::new();
    for c in it: s.chars()
        invariant
            it.seq() == s@,
            r@ == s@.take(it.index() as int),
    {
        r.push(c);
    }
    r
}

/// The string that holds the characters of `chars` from `from` up to `to`.
pub fn slice_text(chars: &Vec<char>, from: usize, to: usize) -> (r: String)
    requires
        from <= to <= chars@.len(),
    ensures
        r@ == chars@.subrange(from as int, to as int),
{
    let mut r = String::new();
    for i in from..to
        invariant
            from <= to <= chars@.len(),
            r@ == chars@.subrange(from as int, i as int),
    {
        r.push(chars[i]);
        proof {
            assert(chars@.subrange(from as int, i + 1) =~= chars@.subrange(
                from as int,
                i as int,
            ).push(chars@[i as int]));
        }
    }
    r
}

/// Whether two strings hold the same text.
pub fn same_text(a: &str, b: &str) -> (r: bool)
    ensures
        r == (a@ == b@),
{
    a.to_string() == b.to_string()
}

/// Whether two optional strings are both absent, or hold the same text.
pub fn same_opt_text(a: &Option<String>, b: &Option<String>) -> (r: bool)
    ensures
        r == (opt_text(*a) == opt_text(*b)),
{
    match (a, b) {
        (Some(x), Some(y)) => same_text(x.as_str(), y.as_str()),
        (None, None) => true,
        _ => false,
    }
}

/// A copy of an optional string.
pub fn copy_opt(o: &Option<String>) -> (r: Option<String>)
    ensures
        opt_text(r) == opt_text(*o),
{
    match o {
        Some(s) => Some(s.clone()),
        None => None,
    }
}

/// A copy of a list of strings.
pub fn copy_texts(v: &Vec<String>) -> (r: Vec<String>)
    ensures
        texts(r@) == texts(v@),
{
    let mut r: Vec<String> = Vec::new();
    for i in 0..v.len()
        invariant
            r@.len() == i,
            forall|j: int| 0 <= j < i ==> r@[j]@ == v@[j]@,
    {
        r.push(v[i].clone());
    }
    proof {
        assert(texts(r@) =~= texts(v@));
    }
    r
}

/// Whether a list of strings holds a text.
pub fn holds_text(v: &Vec<String>, s: &str) -> (r: bool)
    ensures
        r == texts(v@).contains(s@),
{
    for i in 0..v.len()
        invariant
            forall|j: int| 0 <= j < i ==> v@[j]@ != s@,
    {
        if same_text(v[i].as_str(), s) {
            proof {
                assert(texts(v@)[i as int] == s@);
            }
            return true;
        }
    }
    false
}

// ---------------------------------------------------------------------------
// Character classes

/// Unicode `White_Space`.
pub open spec fn is_white(c: char) -> bool {
    let u = c as u32;
    ||| 0x09 <= u <= 0x0d
    ||| u == 0x20
    ||| u == 0x85
    ||| u == 0xa0
    ||| u == 0x1680
    ||| 0x2000 <= u <= 0x200a
    ||| u == 0x2028
    ||| u == 0x2029
    ||| u == 0x202f
    ||| u == 0x205f
    ||| u == 0x3000
}

/// Whether `c` is Unicode white space.
pub fn white(c: char) -> (r: bool)
    ensures
        r == is_white(c),
{
    let u: u32 = c as u32;
    (0x09 <= u && u <= 0x0d) || u == 0x20 || u == 0x85 || u == 0xa0 || u == 0x1680 || (0x2000 <= u
        && u <= 0x200a) || u == 0x2028 || u == 0x2029 || u == 0x202f || u == 0x205f || u == 0x3000
}

pub open spec fn is_digit(c: char) -> bool {
    '0' <= c <= '9'
}

pub open spec fn is_upper(c: char) -> bool {
    'A' <= c <= 'Z'
}

pub open spec fn is_lower(c: char) -> bool {
    'a' <= c <= 'z'
}

/// ASCII letters and digits.
pub open spec fn is_alphanumeric(c: char) -> bool {
    is_digit(c) || is_upper(c) || is_lower(c)
}

/// Whether `c` is an ASCII letter or digit.
pub fn alphanumeric(c: char) -> (r: bool)
    ensures
        r == is_alphanumeric(c),
{
    ('0' <= c && c <= '9') || ('A' <= c && c <= 'Z') || ('a' <= c && c <= 'z')
}

/// The ASCII lower-case form of `c`; other characters stay.
pub open spec fn lower_char(c: char) -> char {
    if is_upper(c) {
        (c as u32 + 32) as char
    } else {
        c
    }
}

/// The ASCII upper-case form of `c`; other characters stay.
pub open spec fn upper_char(c: char) -> char {
    if is_lower(c) {
        (c as u32 - 32) as char
    } else {
        c
    }
}

/// Every character in its ASCII lower-case form.
pub open spec fn lowered(s: Seq<char>) -> Seq<char> {
    Seq::new(s.len(), |i: int| lower_char(s[i]))
}

/// Every character in its ASCII upper-case form.
pub open spec fn uppered(s: Seq<char>) -> Seq<char> {
    Seq::new(s.len(), |i: int| upper_char(s[i]))
}

/// `s` with its ASCII letters in lower case.
pub fn lowercase(s: &str) -> (r: String)
    ensures
        r@ == lowered(s@),
{
    let chars = to_chars(s);
    let mut r = String::new();
    for i in 0..chars.len()
        invariant
            chars@ == s@,
            r@ == lowered(s@).take(i as int),
    {
        let c = chars[i];
        if 'A' <= c && c <= 'Z' {
            let lower: u8 = (c as u8) + 32;
            r.push(lower as char);
        } else {
            r.push(c);
        }
        proof {
            assert(lowered(s@).take(i + 1) =~= lowered(s@).take(i as int).push(lowered(s@)[i as int]));
        }
    }
    proof {
        assert(lowered(s@).take(s@.len() as int) =~= lowered(s@));
    }
    r
}

/// `s` with its ASCII letters in upper case.
pub fn uppercase(s: &str) -> (r: String)
    ensures
        r@ == uppered(s@),
{
    let chars = to_chars(s);
    let mut r = String::new();
    for i in 0..chars.len()
        invariant
            chars@ == s@,
            r@ == uppered(s@).take(i as int),
    {
        let c = chars[i];
        if 'a' <= c && c <= 'z' {
            let upper: u8 = (c as u8) - 32;
            r.push(upper as char);
        } else {
            r.push(c);
        }
        proof {
            assert(uppered(s@).take(i + 1) =~= uppered(s@).take(i as int).push(uppered(s@)[i as int]));
        }
    }
    proof {
        assert(uppered(s@).take(s@.len() as int) =~= uppered(s@));
    }
    r
}

// ---------------------------------------------------------------------------
// Trimming

/// `s` without its leading white space.
pub open spec fn trim_start(s: Seq<char>) -> Seq<char>
    decreases s.len(),
{
    if s.len() > 0 && is_white(s[0]) {
        trim_start(s.drop_first())
    } else {
        s
    }
}

/// `s` without its trailing white space.
pub open spec fn trim_end(s: Seq<char>) -> Seq<char>
    decreases s.len(),
{
    if s.len() > 0 && is_white(s.last()) {
        trim_end(s.drop_last())
    } else {
        s
    }
}

/// `s` without its leading and trailing white space.
pub open spec fn trim(s: Seq<char>) -> Seq<char> {
    trim_end(trim_start(s))
}

/// What is left without trailing white space is a start of the text.
pub proof fn trim_end_is_prefix(s: Seq<char>)
    ensures
        trim_end(s).len() <= s.len(),
        trim_end(s) == s.take(trim_end(s).len() as int),
    decreases s.len(),
{
    if s.len() > 0 && is_white(s.last()) {
        trim_end_is_prefix(s.drop_last());
        assert(trim_end(s) =~= s.take(trim_end(s).len() as int));
    } else {
        assert(s.take(s.len() as int) =~= s);
    }
}

/// Trailing white space is gone at once.
pub proof fn trim_end_is_final(s: Seq<char>)
    ensures
        trim_end(trim_end(s)) == trim_end(s),
    decreases s.len(),
{
    if s.len() > 0 && is_white(s.last()) {
        trim_end_is_final(s.drop_last());
    }
}

/// Leading white space is gone at once.
pub proof fn trim_start_is_final(s: Seq<char>)
    ensures
        trim_start(trim_start(s)) == trim_start(s),
    decreases s.len(),
{
    if s.len() > 0 && is_white(s[0]) {
        trim_start_is_final(s.drop_first());
    }
}

/// Nothing is left of a text exactly where it is all white space.
pub proof fn trim_leaves_nothing(s: Seq<char>)
    ensures
        trim(s).len() == 0 <==> forall|i: int| 0 <= i < s.len() ==> is_white(#[trigger] s[i]),
    decreases s.len(),
{
    if s.len() > 0 && is_white(s[0]) {
        let rest = s.drop_first();
        trim_leaves_nothing(rest);
        if forall|i: int| 0 <= i < rest.len() ==> is_white(#[trigger] rest[i]) {
            assert forall|i: int| 0 <= i < s.len() implies is_white(#[trigger] s[i]) by {
                if i > 0 {
                    assert(is_white(rest[i - 1]));
                }
            }
        }
        if forall|i: int| 0 <= i < s.len() ==> is_white(#[trigger] s[i]) {
            assert forall|i: int| 0 <= i < rest.len() implies is_white(#[trigger] rest[i]) by {
                assert(is_white(s[i + 1]));
            }
        }
    } else if s.len() > 0 {
        trim_end_keeps_start(s);
    }
}

proof fn trim_end_keeps_start(s: Seq<char>)
    requires
        s.len() > 0,
        !is_white(s[0]),
    ensures
        trim_end(s).len() > 0,
    decreases s.len(),
{
    if is_white(s.last()) {
        trim_end_keeps_start(s.drop_last());
    }
}

/// White space at the end does not count.
pub proof fn trim_end_drops(s: Seq<char>, c: char)
    requires
        is_white(c),
    ensures
        trim_end(s.push(c)) == trim_end(s),
{
    assert(s.push(c).drop_last() =~= s);
}

/// The number of leading white-space characters.
pub fn leading_white(chars: &Vec<char>) -> (n: usize)
    ensures
        n <= chars@.len(),
        chars@.skip(n as int) == trim_start(chars@),
        n < chars@.len() ==> !is_white(chars@[n as int]),
{
    let mut n: usize = 0;
    proof {
        assert(chars@.skip(0) =~= chars@);
    }
    while n < chars.len() && white(chars[n])
        invariant
            n <= chars@.len(),
            trim_start(chars@.skip(n as int)) == trim_start(chars@),
        decreases chars@.len() - n,
    {
        proof {
            assert(chars@.skip(n as int).drop_first() =~= chars@.skip(n + 1));
        }
        n += 1;
    }
    n
}

/// The length that remains once trailing white space is dropped.
pub fn unpadded_len(chars: &Vec<char>, from: usize) -> (n: usize)
    requires
        from <= chars@.len(),
    ensures
        from <= n <= chars@.len(),
        chars@.subrange(from as int, n as int) == trim_end(chars@.skip(from as int)),
{
    let mut n: usize = chars.len();
    proof {
        assert(chars@.subrange(from as int, n as int) =~= chars@.skip(from as int));
    }
    while n > from && white(chars[n - 1])
        invariant
            from <= n <= chars@.len(),
            trim_end(chars@.subrange(from as int, n as int)) == trim_end(chars@.skip(from as int)),
        decreases n,
    {
        proof {
            let s = chars@.subrange(from as int, n as int);
            assert(s.last() == chars@[n - 1]);
            assert(s.drop_last() =~= chars@.subrange(from as int, n - 1));
        }
        n -= 1;
    }
    proof {
        let s = chars@.subrange(from as int, n as int);
        if n > from {
            assert(s.last() == chars@[n - 1]);
        }
    }
    n
}

/// `s` without its leading and trailing white space.
pub fn trimmed(s: &str) -> (r: String)
    ensures
        r@ == trim(s@),
{
    let chars = to_chars(s);
    let from = leading_white(&chars);
    let to = unpadded_len(&chars, from);
    slice_text(&chars, from, to)
}

/// `s` without its leading white space.
pub fn trimmed_start(s: &str) -> (r: String)
    ensures
        r@ == trim_start(s@),
{
    let chars = to_chars(s);
    let from = leading_white(&chars);
    let r = slice_text(&chars, from, chars.len());
    proof {
        assert(chars@.subrange(from as int, chars@.len() as int) =~= chars@.skip(from as int));
    }
    r
}

/// `s` without its trailing white space.
pub fn trimmed_end(s: &str) -> (r: String)
    ensures
        r@ == trim_end(s@),
{
    let chars = to_chars(s);
    let to = unpadded_len(&chars, 0);
    proof {
        assert(chars@.skip(0) =~= chars@);
    }
    slice_text(&chars, 0, to)
}

// ---------------------------------------------------------------------------
// Searching

/// `pat` stands in `s` at position `i`.
pub open spec fn occurs_at(s: Seq<char>, pat: Seq<char>, i: int) -> bool {
    0 <= i && i + pat.len() <= s.len() && s.subrange(i, i + pat.len()) == pat
}

/// `pat` stands somewhere in `s`.
pub open spec fn occurs(s: Seq<char>, pat: Seq<char>) -> bool {
    exists|i: int| occurs_at(s, pat, i)
}

/// `i` is the first position of `pat` in `s`.
pub open spec fn first_at(s: Seq<char>, pat: Seq<char>, i: int) -> bool {
    occurs_at(s, pat, i) && forall|j: int| 0 <= j < i ==> !occurs_at(s, pat, j)
}

pub open spec fn starts_with(s: Seq<char>, pat: Seq<char>) -> bool {
    pat.len() <= s.len() && s.take(pat.len() as int) == pat
}

pub open spec fn ends_with(s: Seq<char>, pat: Seq<char>) -> bool {
    pat.len() <= s.len() && s.skip(s.len() - pat.len()) == pat
}

/// The first position of `pat` in `s`, if any.
pub open spec fn found(s: Seq<char>, pat: Seq<char>) -> Option<int> {
    if occurs(s, pat) {
        Some(choose|i: int| first_at(s, pat, i))
    } else {
        None
    }
}

/// A text is found wherever it stands.
pub proof fn part_occurs(before: Seq<char>, part: Seq<char>, after: Seq<char>)
    ensures
        occurs(before + part + after, part),
{
    let s = before + part + after;
    let i = before.len() as int;
    assert(s.subrange(i, i + part.len()) =~= part);
    assert(occurs_at(s, part, i));
}

/// What stands in a text still stands in it with more behind.
pub proof fn part_stays(s: Seq<char>, more: Seq<char>, part: Seq<char>)
    ensures
        occurs(s, part) ==> occurs(s + more, part),
{
    if occurs(s, part) {
        let i = choose|i: int| occurs_at(s, part, i);
        assert((s + more).subrange(i, i + part.len()) =~= s.subrange(i, i + part.len()));
        assert(occurs_at(s + more, part, i));
    }
}

/// A text in small letters is found whatever the case of what surrounds it.
pub proof fn lowered_part(before: Seq<char>, part: Seq<char>, after: Seq<char>)
    requires
        forall|i: int| 0 <= i < part.len() ==> !is_upper(#[trigger] part[i]),
    ensures
        occurs(lowered(before + part + after), part),
{
    part_occurs(lowered(before), part, lowered(after));
    assert(lowered(before + part + after) =~= lowered(before) + part + lowered(after));
}

/// A text has one first position in another.
pub proof fn first_is_unique(s: Seq<char>, pat: Seq<char>, i: int, j: int)
    requires
        first_at(s, pat, i),
        first_at(s, pat, j),
    ensures
        i == j,
{
}

proof fn first_exists(s: Seq<char>, pat: Seq<char>, i: int)
    requires
        occurs_at(s, pat, i),
    ensures
        exists|j: int| first_at(s, pat, j),
    decreases i,
{
    if exists|j: int| 0 <= j < i && occurs_at(s, pat, j) {
        let j = choose|j: int| 0 <= j < i && occurs_at(s, pat, j);
        first_exists(s, pat, j);
    } else {
        assert(first_at(s, pat, i));
    }
}

/// Where a text is found, it stands for the first time.
pub proof fn found_is_first(s: Seq<char>, pat: Seq<char>)
    ensures
        found(s, pat) matches Some(i) ==> first_at(s, pat, i),
        found(s, pat) is None == !occurs(s, pat),
{
    if occurs(s, pat) {
        let i = choose|i: int| occurs_at(s, pat, i);
        first_exists(s, pat, i);
    }
}

/// Whether `pat` stands in `s` at position `i`.
pub fn matches_at(s: &Vec<char>, pat: &Vec<char>, i: usize) -> (r: bool)
    ensures
        r == occurs_at(s@, pat@, i as int),
{
    if pat.len() > s.len() || i > s.len() - pat.len() {
        return false;
    }
    let total: usize = s.len();
    for k in 0..pat.len()
        invariant
            i + pat@.len() <= s@.len(),
            total == s@.len(),
            forall|j: int| 0 <= j < k ==> s@[i + j] == pat@[j],
    {
        if s[i + k] != pat[k] {
            proof {
                assert(s@.subrange(i as int, i + pat@.len())[k as int] != pat@[k as int]);
            }
            return false;
        }
    }
    proof {
        assert(s@.subrange(i as int, i + pat@.len()) =~= pat@);
    }
    true
}

/// The first position of `pat` in `s`, if any.
pub fn find_chars(s: &Vec<char>, pat: &Vec<char>) -> (r: Option<usize>)
    ensures
        match r {
            Some(i) => first_at(s@, pat@, i as int),
            None => !occurs(s@, pat@),
        },
{
    if pat.len() > s.len() {
        proof {
            assert forall|i: int| !occurs_at(s@, pat@, i) by {}
        }
        return None;
    }
    let last: usize = s.len() - pat.len();
    let mut i: usize = 0;
    while i <= last
        invariant
            last == s@.len() - pat@.len(),
            i <= last + 1,
            forall|j: int| 0 <= j < i ==> !occurs_at(s@, pat@, j),
        decreases last + 1 - i,
    {
        if matches_at(s, pat, i) {
            return Some(i);
        }
        if i == last {
            proof {
                assert forall|j: int| !occurs_at(s@, pat@, j) by {}
            }
            return None;
        }
        i += 1;
    }
    None
}

/// Whether `pat` stands somewhere in `s`.
pub fn contains(s: &str, pat: &str) -> (r: bool)
    ensures
        r == occurs(s@, pat@),
{
    let hay = to_chars(s);
    let needle = to_chars(pat);
    find_chars(&hay, &needle).is_some()
}

/// What follows `pat` at the start of `s`, if `s` starts with it.
pub fn strip_prefix(s: &str, pat: &str) -> (r: Option<String>)
    ensures
        match r {
            Some(rest) => starts_with(s@, pat@) && rest@ == s@.skip(pat@.len() as int),
            None => !starts_with(s@, pat@),
        },
{
    let chars = to_chars(s);
    let prefix = to_chars(pat);
    proof {
        if pat@.len() <= s@.len() {
            assert(s@.subrange(0, pat@.len() as int) =~= s@.take(pat@.len() as int));
        }
    }
    if matches_at(&chars, &prefix, 0) {
        let r = slice_text(&chars, prefix.len(), chars.len());
        proof {
            assert(s@.subrange(pat@.len() as int, s@.len() as int) =~= s@.skip(pat@.len() as int));
        }
        Some(r)
    } else {
        None
    }
}

/// Whether `s` ends with `pat`.
pub fn has_suffix(s: &str, pat: &str) -> (r: bool)
    ensures
        r == ends_with(s@, pat@),
{
    let chars = to_chars(s);
    let suffix = to_chars(pat);
    if suffix.len() > chars.len() {
        return false;
    }
    proof {
        assert(s@.subrange(s@.len() - pat@.len(), s@.len() as int) =~= s@.skip(
            s@.len() - pat@.len(),
        ));
    }
    matches_at(&chars, &suffix, chars.len() - suffix.len())
}

// ---------------------------------------------------------------------------
// Splitting

/// The length of the longest prefix of `s` without `c`.
pub open spec fn run_before(s: Seq<char>, c: char) -> nat
    decreases s.len(),
{
    if s.len() == 0 || s[0] == c {
        0
    } else {
        1 + run_before(s.drop_first(), c)
    }
}

/// The length of the longest prefix of `s` without white space.
pub open spec fn run_before_white(s: Seq<char>) -> nat
    decreases s.len(),
{
    if s.len() == 0 || is_white(s[0]) {
        0
    } else {
        1 + run_before_white(s.drop_first())
    }
}

pub proof fn run_before_bound(s: Seq<char>, c: char)
    ensures
        run_before(s, c) <= s.len(),
        run_before(s, c) < s.len() ==> s[run_before(s, c) as int] == c,
        forall|i: int| 0 <= i < run_before(s, c) ==> s[i] != c,
    decreases s.len(),
{
    if s.len() > 0 && s[0] != c {
        let rest = s.drop_first();
        run_before_bound(rest, c);
        assert forall|i: int| 0 <= i < run_before(s, c) implies s[i] != c by {
            if i > 0 {
                assert(rest[i - 1] == s[i]);
            }
        }
    }
}

/// The pieces of `s` between the occurrences of `c`: one more than there are
/// occurrences.
pub open spec fn split(s: Seq<char>, c: char) -> Seq<Seq<char>>
    decreases s.len(),
{
    proof {
        run_before_bound(s, c);
    }
    let n = run_before(s, c) as int;
    if n >= s.len() {
        seq![s]
    } else {
        seq![s.take(n)] + split(s.skip(n + 1), c)
    }
}

/// `s` without one carriage return at its end.
pub open spec fn strip_return(s: Seq<char>) -> Seq<char> {
    if s.len() > 0 && s.last() == '\r' {
        s.drop_last()
    } else {
        s
    }
}

/// The lines of `s`: each ends at a line feed, which is dropped together with
/// one carriage return before it; the last line need not end in a line feed.
pub open spec fn lines(s: Seq<char>) -> Seq<Seq<char>>
    decreases s.len(),
{
    proof {
        run_before_bound(s, '\n');
    }
    let n = run_before(s, '\n') as int;
    if s.len() == 0 {
        seq![]
    } else if n >= s.len() {
        seq![s]
    } else {
        seq![strip_return(s.take(n))] + lines(s.skip(n + 1))
    }
}

/// The first white-space separated word of `s`, if there is one.
pub open spec fn first_word(s: Seq<char>) -> Option<Seq<char>> {
    let t = trim_start(s);
    if t.len() == 0 {
        None
    } else {
        Some(t.take(run_before_white(t) as int))
    }
}

/// The end of the run without `c` that starts at `from`.
fn run_end(chars: &Vec<char>, from: usize, c: char) -> (end: usize)
    requires
        from <= chars@.len(),
    ensures
        from <= end <= chars@.len(),
        end - from == run_before(chars@.skip(from as int), c),
{
    let mut end: usize = from;
    while end < chars.len() && chars[end] != c
        invariant
            from <= end <= chars@.len(),
            run_before(chars@.skip(from as int), c) == end - from + run_before(
                chars@.skip(end as int),
                c,
            ),
        decreases chars@.len() - end,
    {
        proof {
            assert(chars@.skip(end as int).drop_first() =~= chars@.skip(end + 1));
        }
        end += 1;
    }
    end
}

/// The pieces of `s` between the occurrences of `c`.
pub fn split_at_char(s: &str, c: char) -> (r: Vec<String>)
    ensures
        texts(r@) == split(s@, c),
{
    let chars = to_chars(s);
    let mut r: Vec<String> = Vec::new();
    let mut start: usize = 0;
    proof {
        assert(chars@.skip(0) =~= chars@);
        assert(texts(r@) + split(chars@.skip(0), c) =~= split(s@, c));
    }
    loop
        invariant
            start <= chars@.len(),
            texts(r@) + split(chars@.skip(start as int), c) == split(s@, c),
        decreases chars@.len() - start,
    {
        let end = run_end(&chars, start, c);
        let piece = slice_text(&chars, start, end);
        let ghost before = texts(r@);
        let ghost rest = chars@.skip(start as int);
        r.push(piece);
        proof {
            assert(piece@ =~= rest.take(end - start));
            assert(texts(r@) =~= before.push(piece@));
        }
        if end == chars.len() {
            proof {
                assert(rest.take(end - start) =~= rest);
                assert(texts(r@) =~= before + split(rest, c));
            }
            return r;
        }
        proof {
            assert(rest.skip(end - start + 1) =~= chars@.skip(end + 1));
            assert(before + (seq![piece@] + split(chars@.skip(end + 1), c)) =~= texts(r@) + split(
                chars@.skip(end + 1),
                c,
            ));
        }
        start = end + 1;
    }
}

/// The lines of `s`.
pub fn split_lines(s: &str) -> (r: Vec<String>)
    ensures
        texts(r@) == lines(s@),
{
    let chars = to_chars(s);
    let mut r: Vec<String> = Vec::new();
    let mut start: usize = 0;
    proof {
        assert(chars@.skip(0) =~= chars@);
        assert(texts(r@) + lines(chars@.skip(0)) =~= lines(s@));
    }
    while start < chars.len()
        invariant
            start <= chars@.len(),
            texts(r@) + lines(chars@.skip(start as int)) == lines(s@),
        decreases chars@.len() - start,
    {
        let end = run_end(&chars, start, '\n');
        let ghost before = texts(r@);
        let ghost rest = chars@.skip(start as int);
        if end == chars.len() {
            let piece = slice_text(&chars, start, end);
            r.push(piece);
            proof {
                assert(piece@ =~= rest);
                assert(texts(r@) =~= before + lines(rest));
            }
            return r;
        }
        let stop: usize = if end > start && chars[end - 1] == '\r' {
            end - 1
        } else {
            end
        };
        let piece = slice_text(&chars, start, stop);
        r.push(piece);
        proof {
            let whole = rest.take(end - start);
            if end > start {
                assert(whole.last() == chars@[end - 1]);
            }
            assert(piece@ =~= strip_return(whole));
            assert(texts(r@) =~= before.push(piece@));
            assert(rest.skip(end - start + 1) =~= chars@.skip(end + 1));
            assert(before + (seq![piece@] + lines(chars@.skip(end + 1))) =~= texts(r@) + lines(
                chars@.skip(end + 1),
            ));
        }
        start = end + 1;
    }
    proof {
        assert(texts(r@) + lines(chars@.skip(start as int)) =~= texts(r@));
    }
    r
}

/// The first white-space separated word of `s`, if there is one.
pub fn word(s: &str) -> (r: Option<String>)
    ensures
        opt_text(r) == first_word(s@),
{
    let chars = to_chars(s);
    let from = leading_white(&chars);
    if from == chars.len() {
        return None;
    }
    let mut end: usize = from;
    let ghost t = chars@.skip(from as int);
    while end < chars.len() && !white(chars[end])
        invariant
            from <= end <= chars@.len(),
            t == chars@.skip(from as int),
            run_before_white(t) == end - from + run_before_white(chars@.skip(end as int)),
        decreases chars@.len() - end,
    {
        proof {
            assert(chars@.skip(end as int).drop_first() =~= chars@.skip(end + 1));
        }
        end += 1;
    }
    let r = slice_text(&chars, from, end);
    proof {
        assert(r@ =~= t.take(run_before_white(t) as int));
    }
    Some(r)
}

// ---------------------------------------------------------------------------
// Joining and replacing

/// The texts of `parts`, with `sep` between each two.
pub open spec fn joined(parts: Seq<Seq<char>>, sep: Seq<char>) -> Seq<char>
    decreases parts.len(),
{
    if parts.len() == 0 {
        seq![]
    } else if parts.len() == 1 {
        parts[0]
    } else {
        joined(parts.drop_last(), sep) + sep + parts.last()
    }
}

/// `s` with `with` in place of each `c`.
pub open spec fn replaced(s: Seq<char>, c: char, with: Seq<char>) -> Seq<char>
    decreases s.len(),
{
    if s.len() == 0 {
        seq![]
    } else {
        replaced(s.drop_last(), c, with) + (if s.last() == c {
            with
        } else {
            seq![s.last()]
        })
    }
}

/// The strings of `parts`, with `sep` between each two.
pub fn join(parts: &Vec<String>, sep: &str) -> (r: String)
    ensures
        r@ == joined(texts(parts@), sep@),
{
    let mut r = String::new();
    let ghost all = texts(parts@);
    proof {
        assert(all.take(0) =~= seq![]);
    }
    for i in 0..parts.len()
        invariant
            all == texts(parts@),
            r@ == joined(all.take(i as int), sep@),
    {
        proof {
            assert(all.take(i + 1).drop_last() =~= all.take(i as int));
            assert(all.take(i + 1).last() == parts@[i as int]@);
            if i == 0 {
                assert(r@ + parts@[0]@ =~= parts@[0]@);
            }
        }
        if i > 0 {
            r.append(sep);
        }
        r.append(parts[i].as_str());
    }
    proof {
        assert(all.take(all.len() as int) =~= all);
    }
    r
}

/// `s` with `with` in place of each `c`.
pub fn replace_char(s: &str, c: char, with: &str) -> (r: String)
    ensures
        r@ == replaced(s@, c, with@),
{
    let chars = to_chars(s);
    let mut r = String::new();
    proof {
        assert(s@.take(0) =~= seq![]);
    }
    for i in 0..chars.len()
        invariant
            chars@ == s@,
            r@ == replaced(s@.take(i as int), c, with@),
    {
        let ghost before = r@;
        proof {
            assert(s@.take(i + 1).drop_last() =~= s@.take(i as int));
        }
        if chars[i] == c {
            r.append(with);
        } else {
            r.push(chars[i]);
            proof {
                assert(r@ =~= before + seq![s@[i as int]]);
            }
        }
    }
    proof {
        assert(s@.take(s@.len() as int) =~= s@);
    }
    r
}

// ---------------------------------------------------------------------------
// Numbers

/// The decimal digit for `d < 10`.
pub open spec fn digit_char(d: nat) -> char {
    (48 + d) as char
}

/// `n` in decimal notation.
pub open spec fn decimal(n: nat) -> Seq<char>
    decreases n,
{
    if n < 10 {
        seq![digit_char(n)]
    } else {
        decimal(n / 10).push(digit_char(n % 10))
    }
}

/// The number that a sequence of decimal digits stands for.
pub open spec fn digits_value(s: Seq<char>) -> nat
    decreases s.len(),
{
    if s.len() == 0 {
        0
    } else {
        10 * digits_value(s.drop_last()) + (s.last() as nat - 48) as nat
    }
}

pub open spec fn all_digits(s: Seq<char>) -> bool {
    forall|i: int| 0 <= i < s.len() ==> is_digit(#[trigger] s[i])
}

/// The number that `s` stands for: decimal digits, which a plus sign may
/// precede, of a value not above `max`.
pub open spec fn parsed(s: Seq<char>, max: nat) -> Option<nat> {
    let digits = if s.len() > 0 && s[0] == '+' {
        s.skip(1)
    } else {
        s
    };
    if digits.len() > 0 && all_digits(digits) && digits_value(digits) <= max {
        Some(digits_value(digits))
    } else {
        None
    }
}

/// Decimal notation can be read back: it holds digits only, and stands for
/// the number that it was made from.
pub proof fn decimal_reads_back(n: nat)
    ensures
        decimal(n).len() > 0,
        all_digits(decimal(n)),
        digits_value(decimal(n)) == n,
        n <= u64::MAX ==> parsed(decimal(n), u64::MAX as nat) == Some(n),
    decreases n,
{
    if n < 10 {
        assert(decimal(n).drop_last() =~= seq![]);
        assert(digits_value(seq![]) == 0);
    } else {
        decimal_reads_back(n / 10);
        let d = decimal(n);
        assert(d.drop_last() =~= decimal(n / 10));
        assert forall|i: int| 0 <= i < d.len() implies is_digit(#[trigger] d[i]) by {
            if i < d.len() - 1 {
                assert(d[i] == decimal(n / 10)[i]);
            }
        }
    }
    assert(is_digit(decimal(n)[0]));
}

/// A run of digits in front of something else is found again.
pub proof fn digits_end(a: Seq<char>, x: Seq<char>, b: Seq<char>, y: Seq<char>)
    requires
        all_digits(a),
        all_digits(b),
        x.len() > 0 ==> !is_digit(x[0]),
        y.len() > 0 ==> !is_digit(y[0]),
        a + x == b + y,
    ensures
        a == b,
        x == y,
{
    let s = a + x;
    assert(s.len() == b.len() + y.len());
    if a.len() < b.len() {
        assert(s[a.len() as int] == x[0]);
        assert((b + y)[a.len() as int] == b[a.len() as int]);
    }
    if b.len() < a.len() {
        assert((b + y)[b.len() as int] == y[0]);
        assert(s[b.len() as int] == a[b.len() as int]);
    }
    assert(a =~= s.take(a.len() as int));
    assert(b =~= (b + y).take(b.len() as int));
    assert(x =~= s.skip(a.len() as int));
    assert(y =~= (b + y).skip(b.len() as int));
}

/// Two numbers with the same decimal notation, whatever else follows it, are
/// equal.
pub proof fn decimals_agree(m: nat, x: Seq<char>, n: nat, y: Seq<char>)
    requires
        x.len() > 0 ==> !is_digit(x[0]),
        y.len() > 0 ==> !is_digit(y[0]),
        decimal(m) + x == decimal(n) + y,
    ensures
        m == n,
        x == y,
{
    decimal_reads_back(m);
    decimal_reads_back(n);
    digits_end(decimal(m), x, decimal(n), y);
}

/// `n` in decimal notation.
pub fn number(n: u64) -> (r: String)
    ensures
        r@ == decimal(n as nat),
    decreases n,
{
    let digit: u8 = 48 + (n % 10) as u8;
    if n < 10 {
        let mut r = String::new();
        r.push(digit as char);
        proof {
            assert(r@ =~= seq![digit as char]);
        }
        r
    } else {
        let mut r = number(n / 10);
        r.push(digit as char);
        r
    }
}

/// A signed number in decimal notation, a minus sign before a negative one.
pub open spec fn signed_decimal(n: int) -> Seq<char> {
    if n < 0 {
        "-"@ + decimal((-n) as nat)
    } else {
        decimal(n as nat)
    }
}

/// `n` in decimal notation.
pub fn signed_number(n: i64) -> (r: String)
    ensures
        r@ == signed_decimal(n as int),
{
    if n < 0 {
        let size: u64 = (-(n as i128)) as u64;
        let mut r = "-".to_string();
        r.append(number(size).as_str());
        r
    } else {
        number(n as u64)
    }
}

/// The number not above `max` that `s` stands for, if it stands for one.
pub fn parse_number(s: &str, max: u64) -> (r: Option<u64>)
    ensures
        match r {
            Some(n) => parsed(s@, max as nat) == Some(n as nat),
            None => parsed(s@, max as nat) is None,
        },
{
    let chars = to_chars(s);
    let from: usize = if chars.len() > 0 && chars[0] == '+' {
        1
    } else {
        0
    };
    let ghost digits = chars@.skip(from as int);
    proof {
        assert(chars@.skip(0) =~= chars@);
    }
    if from == chars.len() {
        return None;
    }
    let mut value: u64 = 0;
    let mut over = false;
    proof {
        assert(digits.take(0) =~= seq![]);
    }
    for i in from..chars.len()
        invariant
            chars@ == s@,
            from <= 1,
            from < chars@.len(),
            digits == chars@.skip(from as int),
            parsed(s@, max as nat) == (if digits.len() > 0 && all_digits(digits) && digits_value(
                digits,
            ) <= max {
                Some(digits_value(digits))
            } else {
                None
            }),
            all_digits(digits.take(i - from)),
            !over ==> value == digits_value(digits.take(i - from)),
            over ==> digits_value(digits.take(i - from)) > u64::MAX,
    {
        let c = chars[i];
        let ghost k = i - from;
        proof {
            assert(digits[k] == c);
            assert(digits.take(k + 1).drop_last() =~= digits.take(k));
            assert(digits.take(k + 1).last() == c);
        }
        if !('0' <= c && c <= '9') {
            return None;
        }
        proof {
            assert forall|j: int| 0 <= j < k + 1 implies is_digit(
                #[trigger] digits.take(k + 1)[j],
            ) by {
                if j < k {
                    assert(digits.take(k)[j] == digits[j]);
                }
            }
        }
        let d: u64 = (c as u64) - 48;
        if !over {
            match value.checked_mul(10) {
                Some(tens) => match tens.checked_add(d) {
                    Some(next) => {
                        value = next;
                    },
                    None => {
                        over = true;
                    },
                },
                None => {
                    over = true;
                },
            }
        }
    }
    proof {
        assert(digits.take(digits.len() as int) =~= digits);
    }
    if over || value > max {
        None
    } else {
        Some(value)
    }
}

/// The hexadecimal digit for `d < 16`, in lower case.
pub open spec fn hex_char(d: nat) -> char {
    if d < 10 {
        (48 + d) as char
    } else {
        (87 + d) as char
    }
}

/// `n` in hexadecimal notation, with `width` digits.
pub open spec fn hex(n: nat, width: nat) -> Seq<char>
    decreases width,
{
    if width == 0 {
        seq![]
    } else {
        hex(n / 16, (width - 1) as nat).push(hex_char(n % 16))
    }
}

/// `n` in hexadecimal notation, with `width` digits.
pub fn hex_number(n: u64, width: usize) -> (r: String)
    ensures
        r@ == hex(n as nat, width as nat),
    decreases width,
{
    if width == 0 {
        return String::new();
    }
    let mut r = hex_number(n / 16, width - 1);
    let d: u8 = (n % 16) as u8;
    let code: u8 = if d < 10 {
        48 + d
    } else {
        87 + d
    };
    r.push(code as char);
    r
}

/// Numbers below `16^width` with the same hexadecimal notation are equal.
pub proof fn hex_is_injective(a: nat, b: nat, width: nat)
    requires
        hex(a, width) == hex(b, width),
        a < vstd::arithmetic::power::pow(16, width),
        b < vstd::arithmetic::power::pow(16, width),
    ensures
        a == b,
    decreases width,
{
    reveal(vstd::arithmetic::power::pow);
    if width > 0 {
        let w = (width - 1) as nat;
        let x = hex(a, width);
        let y = hex(b, width);
        assert(x.last() == hex_char(a % 16) && y.last() == hex_char(b % 16));
        assert(x.drop_last() =~= hex(a / 16, w));
        assert(y.drop_last() =~= hex(b / 16, w));
        let p = vstd::arithmetic::power::pow(16, w);
        assert(vstd::arithmetic::power::pow(16, width) == 16 * p);
        assert(a / 16 < p && b / 16 < p);
        hex_is_injective(a / 16, b / 16, w);
    }
}

// ---------------------------------------------------------------------------
// Order

/// `a` comes before `b` in the order of their code points.
pub open spec fn precedes(a: Seq<char>, b: Seq<char>) -> bool
    decreases a.len(),
{
    if b.len() == 0 {
        false
    } else if a.len() == 0 {
        true
    } else if a[0] != b[0] {
        a[0] < b[0]
    } else {
        precedes(a.drop_first(), b.drop_first())
    }
}

/// Whether `a` comes before `b` in the order of their code points.
pub fn before(a: &str, b: &str) -> (r: bool)
    ensures
        r == precedes(a@, b@),
{
    let x = to_chars(a);
    let y = to_chars(b);
    let mut i: usize = 0;
    proof {
        assert(x@.skip(0) =~= x@);
        assert(y@.skip(0) =~= y@);
    }
    while i < x.len() && i < y.len()
        invariant
            i <= x@.len(),
            i <= y@.len(),
            precedes(x@.skip(i as int), y@.skip(i as int)) == precedes(a@, b@),
        decreases x@.len() - i,
    {
        proof {
            assert(x@.skip(i as int).drop_first() =~= x@.skip(i + 1));
            assert(y@.skip(i as int).drop_first() =~= y@.skip(i + 1));
        }
        if x[i] != y[i] {
            return x[i] < y[i];
        }
        i += 1;
    }
    i < y.len()
}

pub proof fn precedes_is_total(a: Seq<char>, b: Seq<char>)
    ensures
        a != b ==> precedes(a, b) || precedes(b, a),
        !precedes(a, a),
        precedes(a, b) ==> !precedes(b, a),
    decreases a.len(),
{
    if a.len() > 0 && b.len() > 0 {
        precedes_is_total(a.drop_first(), b.drop_first());
        if a[0] == b[0] && a.drop_first() == b.drop_first() {
            assert(a =~= seq![a[0]] + a.drop_first());
            assert(b =~= seq![b[0]] + b.drop_first());
        }
    } else if a.len() == 0 && b.len() == 0 {
        assert(a =~= b);
    }
    if a.len() > 0 {
        precedes_is_total(a.drop_first(), a.drop_first());
    }
}

pub proof fn precedes_is_transitive(a: Seq<char>, b: Seq<char>, c: Seq<char>)
    requires
        precedes(a, b),
        precedes(b, c),
    ensures
        precedes(a, c),
    decreases a.len(),
{
    if a.len() > 0 && a[0] == b[0] && b[0] == c[0] {
        precedes_is_transitive(a.drop_first(), b.drop_first(), c.drop_first());
    }
}

} // verus!
