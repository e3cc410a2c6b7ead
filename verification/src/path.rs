//! Slash-separated paths, held as text.
use crate::text;
use vstd::prelude::*;

verus! {

/// `s` without what follows its last component: trailing slashes and
/// current-directory components. The root stays.
pub open spec fn chop(s: Seq<char>) -> Seq<char>
    decreases s.len(),
{
    if s.len() > 1 && s.last() == '/' {
        chop(s.drop_last())
    } else if s.len() > 1 && s.last() == '.' && s[s.len() - 2] == '/' {
        chop(s.drop_last())
    } else {
        s
    }
}

/// `s` without the trailing run of characters that are no slash.
pub open spec fn up_to_slash(s: Seq<char>) -> Seq<char>
    decreases s.len(),
{
    if s.len() > 0 && s.last() != '/' {
        up_to_slash(s.drop_last())
    } else {
        s
    }
}

/// The path without its last component: none for the empty path and for the
/// root, empty for a relative path of one component.
pub open spec fn parent(s: Seq<char>) -> Option<Seq<char>> {
    let t = chop(s);
    if t.len() == 0 || t == seq!['/'] {
        None
    } else {
        Some(chop(up_to_slash(t)))
    }
}

/// The last component, where it names a file or a directory.
pub open spec fn file_name(s: Seq<char>) -> Option<Seq<char>> {
    let t = chop(s);
    let name = t.skip(up_to_slash(t).len() as int);
    if name.len() == 0 || name == seq!['.'] || name == seq!['.', '.'] {
        None
    } else {
        Some(name)
    }
}

/// The path that leads from `base` to `name`, a relative path.
pub open spec fn child(base: Seq<char>, name: Seq<char>) -> Seq<char> {
    if base.len() == 0 || base.last() == '/' {
        base + name
    } else {
        base + "/"@ + name
    }
}

/// The components of a path: its pieces between slashes, without the empty
/// ones and without current-directory pieces that follow another piece.
pub open spec fn components(pieces: Seq<Seq<char>>) -> Seq<Seq<char>>
    decreases pieces.len(),
{
    if pieces.len() == 0 {
        seq![]
    } else {
        let last = pieces.last();
        let before = components(pieces.drop_last());
        if last.len() == 0 || (last == seq!['.'] && pieces.len() > 1) {
            before
        } else {
            before.push(last)
        }
    }
}

/// Two texts name the same path: both or neither start at the root, and their
/// components are the same.
pub open spec fn same(a: Seq<char>, b: Seq<char>) -> bool {
    &&& (a.len() > 0 && a[0] == '/') == (b.len() > 0 && b[0] == '/')
    &&& components(text::split(a, '/')) == components(text::split(b, '/'))
}

/// The length of what `chop` leaves of the first `n` characters.
fn chopped_len(chars: &Vec<char>, n: usize) -> (r: usize)
    requires
        n <= chars@.len(),
    ensures
        r <= n,
        chars@.take(r as int) == chop(chars@.take(n as int)),
{
    let mut r: usize = n;
    while r > 1 && (chars[r - 1] == '/' || (chars[r - 1] == '.' && chars[r - 2] == '/'))
        invariant
            r <= n <= chars@.len(),
            chop(chars@.take(r as int)) == chop(chars@.take(n as int)),
        decreases r,
    {
        proof {
            assert(chars@.take(r as int).drop_last() =~= chars@.take(r - 1));
        }
        r -= 1;
    }
    r
}

/// The length of what `up_to_slash` leaves of the first `n` characters.
fn slash_len(chars: &Vec<char>, n: usize) -> (r: usize)
    requires
        n <= chars@.len(),
    ensures
        r <= n,
        chars@.take(r as int) == up_to_slash(chars@.take(n as int)),
{
    let mut r: usize = n;
    while r > 0 && chars[r - 1] != '/'
        invariant
            r <= n <= chars@.len(),
            up_to_slash(chars@.take(r as int)) == up_to_slash(chars@.take(n as int)),
        decreases r,
    {
        proof {
            assert(chars@.take(r as int).drop_last() =~= chars@.take(r - 1));
        }
        r -= 1;
    }
    r
}

/// The path without its last component.
pub fn parent_of(path: &str) -> (r: Option<String>)
    ensures
        text::opt_text(r) == parent(path@),
{
    let chars = text::to_chars(path);
    proof {
        assert(chars@.take(chars@.len() as int) =~= chars@);
    }
    let n = chopped_len(&chars, chars.len());
    let ghost t = chars@.take(n as int);
    proof {
        if n == 1 && chars@[0] == '/' {
            assert(t =~= seq!['/']);
        }
        if t == seq!['/'] {
            assert(t[0] == '/' && t.len() == 1);
        }
    }
    if n == 0 || (n == 1 && chars[0] == '/') {
        return None;
    }
    let m = slash_len(&chars, n);
    let k = chopped_len(&chars, m);
    proof {
        assert(chars@.subrange(0, k as int) =~= chars@.take(k as int));
    }
    Some(text::slice_text(&chars, 0, k))
}

/// The last component, where it names a file or a directory.
pub fn file_name_of(path: &str) -> (r: Option<String>)
    ensures
        text::opt_text(r) == file_name(path@),
{
    let chars = text::to_chars(path);
    proof {
        assert(chars@.take(chars@.len() as int) =~= chars@);
    }
    let n = chopped_len(&chars, chars.len());
    let m = slash_len(&chars, n);
    let ghost t = chars@.take(n as int);
    let name = text::slice_text(&chars, m, n);
    proof {
        assert(name@ =~= t.skip(m as int));
        reveal_strlit(".");
        reveal_strlit("..");
        assert("."@ =~= seq!['.']);
        assert(".."@ =~= seq!['.', '.']);
    }
    if m == n || text::same_text(name.as_str(), ".") || text::same_text(name.as_str(), "..") {
        None
    } else {
        Some(name)
    }
}

/// The path that leads from `base` to `name`, a relative path.
pub fn join(base: &str, name: &str) -> (r: String)
    ensures
        r@ == child(base@, name@),
{
    let chars = text::to_chars(base);
    let mut r = base.to_string();
    if chars.len() > 0 && chars[chars.len() - 1] != '/' {
        r.append("/");
    }
    r.append(name);
    r
}

/// The components among the pieces of a path.
fn pick_components(pieces: &Vec<String>) -> (r: Vec<String>)
    ensures
        text::texts(r@) == components(text::texts(pieces@)),
{
    let mut r: Vec<String> = Vec::new();
    let ghost all = text::texts(pieces@);
    proof {
        assert(text::texts(r@) =~= components(all.take(0)));
    }
    for i in 0..pieces.len()
        invariant
            all == text::texts(pieces@),
            text::texts(r@) == components(all.take(i as int)),
    {
        let ghost before = text::texts(r@);
        proof {
            assert(all.take(i + 1).drop_last() =~= all.take(i as int));
            reveal_strlit(".");
            assert("."@ =~= seq!['.']);
        }
        if !(pieces[i].as_str().is_empty() || (i > 0 && text::same_text(pieces[i].as_str(), "."))) {
            r.push(pieces[i].clone());
            proof {
                assert(text::texts(r@) =~= before.push(pieces@[i as int]@));
            }
        }
    }
    proof {
        assert(all.take(all.len() as int) =~= all);
    }
    r
}

/// Whether two lists hold the same texts.
fn same_texts(a: &Vec<String>, b: &Vec<String>) -> (r: bool)
    ensures
        r == (text::texts(a@) == text::texts(b@)),
{
    if a.len() != b.len() {
        proof {
            assert(text::texts(a@).len() != text::texts(b@).len());
        }
        return false;
    }
    for i in 0..a.len()
        invariant
            a@.len() == b@.len(),
            forall|j: int| 0 <= j < i ==> a@[j]@ == b@[j]@,
    {
        if !text::same_text(a[i].as_str(), b[i].as_str()) {
            proof {
                assert(text::texts(a@)[i as int] != text::texts(b@)[i as int]);
            }
            return false;
        }
    }
    proof {
        assert(text::texts(a@) =~= text::texts(b@));
    }
    true
}

/// Whether a path starts at the root.
fn is_rooted(path: &str) -> (r: bool)
    ensures
        r == (path@.len() > 0 && path@[0] == '/'),
{
    let chars = text::to_chars(path);
    chars.len() > 0 && chars[0] == '/'
}

/// Whether two texts name the same path.
pub fn same_path(a: &str, b: &str) -> (r: bool)
    ensures
        r == same(a@, b@),
{
    let x = pick_components(&text::split_at_char(a, '/'));
    let y = pick_components(&text::split_at_char(b, '/'));
    is_rooted(a) == is_rooted(b) && same_texts(&x, &y)
}

/// Whether a path has a component.
pub fn has_component(path: &str, name: &str) -> (r: bool)
    ensures
        r == components(text::split(path@, '/')).contains(name@),
{
    text::holds_text(&pick_components(&text::split_at_char(path, '/')), name)
}

/// What is put below a directory has its own name, and lies in it.
pub proof fn children_have_their_names(base: Seq<char>, name: Seq<char>)
    requires
        base.len() > 0,
        base.last() != '/',
        name.len() > 0,
        !name.contains('/'),
        name != seq!['.'],
        name != seq!['.', '.'],
    ensures
        child(base, name) == base + seq!['/'] + name,
        file_name(child(base, name)) == Some(name),
        parent(child(base, name)) == Some(chop(base)),
{
    reveal_strlit("/");
    assert("/"@ =~= seq!['/']);
    let s = base + seq!['/'] + name;
    assert(child(base, name) =~= s);
    let l = name.len() as int;
    assert(name.contains(name[l - 1]));
    assert(s.last() == name[l - 1]);
    if l == 1 {
        assert(name =~= seq![name[0]]);
        assert(s[s.len() - 2] == '/');
    } else {
        assert(name.contains(name[l - 2]));
        assert(s[s.len() - 2] == name[l - 2]);
    }
    assert(chop(s) == s);
    slash_is_found(base + seq!['/'], name);
    assert(s.skip((base.len() + 1) as int) =~= name);
    assert(s.len() > 1);
    assert((base + seq!['/']).drop_last() =~= base);
}

proof fn slash_is_found(start: Seq<char>, name: Seq<char>)
    requires
        start.len() > 0,
        start.last() == '/',
        !name.contains('/'),
    ensures
        up_to_slash(start + name) == start,
    decreases name.len(),
{
    let s = start + name;
    if name.len() > 0 {
        let shorter = name.drop_last();
        assert(name.contains(name[name.len() - 1]));
        assert(s.last() == name.last());
        assert(s.drop_last() =~= start + shorter);
        assert(!shorter.contains('/')) by {
            if shorter.contains('/') {
                let i = choose|i: int| 0 <= i < shorter.len() && shorter[i] == '/';
                assert(name[i] == '/');
            }
        }
        slash_is_found(start, shorter);
    } else {
        assert(s =~= start);
    }
}

} // verus!
