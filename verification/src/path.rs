//! Unix paths as text.

use vstd::prelude::*;
use vstd::string::*;
use crate::ident::lemma_one_segment;
use crate::text::{chars_of, find_last, last_of, lemma_last, occurs_at, same_text, slice_text, texts};

verus! {

pub open spec fn is_absolute(p: Seq<char>) -> bool {
    p.len() > 0 && p[0] == '/'
}

/// `p` cut at each slash.
pub open spec fn segments(p: Seq<char>) -> Seq<Seq<char>>
    decreases p.len(),
{
    if p.len() == 0 {
        seq![Seq::empty()]
    } else {
        let before = segments(p.drop_last());
        if p.last() == '/' {
            before.push(Seq::empty())
        } else {
            before.drop_last().push(before.last().push(p.last()))
        }
    }
}

/// A segment that is neither empty nor a single dot.
pub open spec fn is_name(s: Seq<char>) -> bool {
    s.len() > 0 && s != seq!['.']
}

pub open spec fn names(segs: Seq<Seq<char>>) -> Seq<Seq<char>> {
    segs.filter(|s: Seq<char>| is_name(s))
}

/// The components of a path. Repeated and trailing slashes do not count, nor
/// does a single dot, unless the path begins with it. The root is a component
/// of its own, and `..` is kept as it is.
pub open spec fn components(p: Seq<char>) -> Seq<Seq<char>> {
    if is_absolute(p) {
        seq![seq!['/']] + names(segments(p))
    } else if segments(p)[0] == seq!['.'] {
        seq![seq!['.']] + names(segments(p))
    } else {
        names(segments(p))
    }
}

/// The first components of `p` are those of `base`.
pub open spec fn is_within(p: Seq<char>, base: Seq<char>) -> bool {
    components(base).is_prefix_of(components(p))
}

/// `base`, a slash where it does not end with one, and `p`.
pub open spec fn below(base: Seq<char>, p: Seq<char>) -> Seq<char> {
    if base.len() == 0 || base.last() == '/' {
        base + p
    } else {
        base.push('/') + p
    }
}

/// `p` seen from the folder `base`.
pub open spec fn joined(base: Seq<char>, p: Seq<char>) -> Seq<char> {
    if is_absolute(p) {
        p
    } else {
        below(base, p)
    }
}

/// The last component of `p`, if it is the name of a file or folder.
pub open spec fn file_name(p: Seq<char>) -> Option<Seq<char>> {
    let c = components(p);
    if c.len() > 0 && c.last() != seq!['/'] && c.last() != seq!['.'] && c.last() != seq!['.', '.'] {
        Some(c.last())
    } else {
        None
    }
}

/// What stands after the last dot of a file's name; nothing, where the only
/// dot is the name's first character.
pub open spec fn name_extension(name: Seq<char>) -> Option<Seq<char>> {
    match last_of(name, seq!['.']) {
        Some(i) => if i > 0 {
            Some(name.skip(i + 1))
        } else {
            None
        },
        None => None,
    }
}

/// The extension of the file that `p` names.
pub open spec fn extension(p: Seq<char>) -> Option<Seq<char>> {
    match file_name(p) {
        Some(name) => name_extension(name),
        None => None,
    }
}

proof fn lemma_segments_some(p: Seq<char>)
    ensures
        segments(p).len() > 0,
    decreases p.len(),
{
    if p.len() > 0 {
        lemma_segments_some(p.drop_last());
    }
}

/// Cutting two paths with a slash between them is cutting each.
proof fn lemma_segments_join(a: Seq<char>, b: Seq<char>)
    ensures
        segments(a.push('/') + b) == segments(a) + segments(b),
    decreases b.len(),
{
    lemma_segments_some(a);
    let s = a.push('/') + b;
    if b.len() == 0 {
        assert(s =~= a.push('/'));
        assert(s.drop_last() =~= a);
        assert(segments(a) + segments(b) =~= segments(a).push(Seq::empty()));
    } else {
        let c = b.drop_last();
        lemma_segments_join(a, c);
        lemma_segments_some(c);
        assert(s.drop_last() =~= a.push('/') + c);
        let before = segments(a) + segments(c);
        if b.last() == '/' {
            assert(before.push(Seq::empty()) =~= segments(a) + segments(c).push(Seq::empty()));
        } else {
            assert(before.last() == segments(c).last());
            assert(before.drop_last().push(before.last().push(b.last())) =~= segments(a)
                + segments(c).drop_last().push(segments(c).last().push(b.last())));
        }
    }
}

/// The components of what is put below a folder are those of the folder, and
/// then the names of what is put there.
proof fn lemma_components_below(base: Seq<char>, p: Seq<char>)
    requires
        base.len() > 0,
    ensures
        components(below(base, p)) == components(base) + names(segments(p)),
{
    let j = below(base, p);
    lemma_segments_some(base);
    let a = if base.last() == '/' {
        base.drop_last()
    } else {
        base
    };
    lemma_segments_some(a);
    assert(j =~= a.push('/') + p);
    lemma_segments_join(a, p);
    let f = |s: Seq<char>| is_name(s);
    Seq::filter_distributes_over_add(segments(a), segments(p), f);
    if base.last() == '/' {
        let e: Seq<Seq<char>> = seq![Seq::empty()];
        assert(base =~= a.push('/') + Seq::empty());
        lemma_segments_join(a, Seq::empty());
        assert(segments(Seq::empty()) =~= e);
        Seq::filter_distributes_over_add(segments(a), e, f);
        assert(names(e) =~= Seq::empty()) by {
            reveal_with_fuel(Seq::filter, 2);
            assert(e.drop_last() =~= Seq::empty());
        }
        assert(names(segments(base)) =~= names(segments(a)));
        assert(segments(base)[0] == segments(a)[0]);
    }
    assert(names(segments(j)) == names(segments(base)) + names(segments(p)));
    assert(segments(j)[0] == segments(base)[0]);
    assert(j[0] == base[0]);
    assert(components(j) =~= components(base) + names(segments(p)));
}

proof fn lemma_no_components()
    ensures
        components(Seq::empty()) == Seq::<Seq<char>>::empty(),
{
    let e = Seq::<char>::empty();
    assert(segments(e) =~= seq![Seq::empty()]);
    reveal_with_fuel(Seq::filter, 2);
    assert(segments(e).drop_last() =~= Seq::empty());
    assert(components(e) =~= Seq::empty());
}

/// What is put below a folder is, by its components, within the folder.
pub proof fn law_below_within(base: Seq<char>, p: Seq<char>)
    ensures
        is_within(below(base, p), base),
{
    if base.len() == 0 {
        assert(base =~= Seq::empty());
        lemma_no_components();
    } else {
        lemma_components_below(base, p);
    }
}

/// A name, joined to a folder, is one more component.
pub proof fn law_join_name(base: Seq<char>, name: Seq<char>)
    requires
        !is_absolute(name),
        is_name(name),
        segments(name) == seq![name],
    ensures
        components(joined(base, name)) == components(base).push(name),
{
    assert(names(seq![name]) =~= seq![name]) by {
        reveal_with_fuel(Seq::filter, 2);
        assert(seq![name].drop_last() =~= Seq::empty());
    }
    if base.len() == 0 {
        assert(base =~= Seq::empty());
        lemma_no_components();
        assert(joined(base, name) =~= name);
        assert(components(name) =~= seq![name]);
    } else {
        lemma_components_below(base, name);
        assert(components(base) + seq![name] =~= components(base).push(name));
    }
}

/// Joining a relative path to a folder stays, by its components, within the folder.
pub proof fn law_join_within(base: Seq<char>, p: Seq<char>)
    requires
        !is_absolute(p),
    ensures
        is_within(joined(base, p), base),
{
    law_below_within(base, p);
}

/// `base`, a slash where it does not end with one, and `p`.
pub fn path_below(base: &str, p: &str) -> (r: String)
    ensures
        r@ == below(base@, p@),
{
    let cs = chars_of(base);
    let n: usize = cs.len();
    let mut out = base.to_owned();
    if n > 0 && cs[n - 1] != '/' {
        out.push('/');
    }
    out.append(p);
    out
}

/// `p` seen from the folder `base`.
pub fn path_join(base: &str, p: &str) -> (r: String)
    ensures
        r@ == joined(base@, p@),
{
    let cs = chars_of(p);
    if cs.len() > 0 && cs[0] == '/' {
        p.to_owned()
    } else {
        path_below(base, p)
    }
}

/// Whether `s` is a name: neither empty nor a single dot.
fn named(s: &str) -> (r: bool)
    ensures
        r == is_name(s@),
{
    let dot = ".";
    proof {
        reveal_strlit(".");
        assert(dot@ =~= seq!['.']);
    }
    !s.is_empty() && !same_text(s, dot)
}

/// `p` cut at each slash.
fn path_segments(p: &str) -> (r: Vec<String>)
    ensures
        texts(r@) == segments(p@),
{
    let cs = chars_of(p);
    let mut done: Vec<String> = Vec::new();
    let mut last = String::new();
    assert(texts(done@).push(last@) =~= segments(p@.take(0)));
    for i in 0..cs.len()
        invariant
            cs@ == p@,
            texts(done@).push(last@) == segments(p@.take(i as int)),
    {
        let c = cs[i];
        let ghost before = texts(done@).push(last@);
        assert(p@.take(i + 1).drop_last() =~= p@.take(i as int));
        assert(p@.take(i + 1).last() == c);
        assert(before.last() == last@);
        assert(before.drop_last() =~= texts(done@));
        if c == '/' {
            done.push(last);
            last = String::new();
            assert(texts(done@) =~= before);
        } else {
            last.push(c);
        }
    }
    assert(p@.take(cs@.len() as int) =~= p@);
    let ghost before = texts(done@).push(last@);
    done.push(last);
    assert(texts(done@) =~= before);
    done
}

/// The components of the path `p`.
pub fn path_components(p: &str) -> (r: Vec<String>)
    ensures
        texts(r@) == components(p@),
{
    let segs = path_segments(p);
    let ghost all = segments(p@);
    let ghost f = |s: Seq<char>| is_name(s);
    proof {
        lemma_segments_some(p@);
        reveal_strlit(".");
        reveal_strlit("/");
        assert("."@ =~= seq!['.']);
        assert("/"@ =~= seq!['/']);
        assert(texts(segs@).len() == segs@.len());
        assert(texts(segs@)[0] == segs@[0]@);
    }
    let cs = chars_of(p);
    let mut out: Vec<String> = Vec::new();
    if cs.len() > 0 && cs[0] == '/' {
        out.push("/".to_owned());
    } else if same_text(segs[0].as_str(), ".") {
        out.push(".".to_owned());
    }
    let ghost head = texts(out@);
    assert(components(p@) =~= head + names(all));
    assert(all.take(0).filter(f) =~= Seq::empty()) by {
        reveal(Seq::filter);
    }
    for i in 0..segs.len()
        invariant
            texts(segs@) == all,
            f == |s: Seq<char>| is_name(s),
            texts(out@) =~= head + all.take(i as int).filter(f),
    {
        let s = segs[i].as_str();
        assert(all[i as int] == s@);
        assert(all.take(i + 1) =~= all.take(i as int).push(s@));
        let ghost prev = out@;
        proof {
            all.take(i as int).lemma_filter_push(s@, f);
        }
        if named(s) {
            out.push(s.to_owned());
            assert(texts(out@) =~= texts(prev).push(s@));
        }
    }
    assert(all.take(segs@.len() as int) =~= all);
    out
}

/// Whether the first components of `p` are those of `base`.
pub fn path_within(p: &str, base: &str) -> (r: bool)
    ensures
        r == is_within(p@, base@),
{
    let x = path_components(p);
    let y = path_components(base);
    let ghost a = components(p@);
    let ghost b = components(base@);
    assert(a.len() == x@.len() && b.len() == y@.len());
    if x.len() < y.len() {
        return false;
    }
    for i in 0..y.len()
        invariant
            a == texts(x@),
            b == texts(y@),
            a == components(p@),
            b == components(base@),
            y@.len() <= x@.len(),
            forall|j: int| 0 <= j < i ==> a[j] == b[j],
    {
        assert(a[i as int] == x@[i as int]@ && b[i as int] == y@[i as int]@);
        if !same_text(x[i].as_str(), y[i].as_str()) {
            assert(a.take(b.len() as int)[i as int] != b[i as int]);
            return false;
        }
    }
    assert(a.take(b.len() as int) =~= b);
    true
}

/// The extension of a file that is called `name`.
pub fn file_name_extension(name: &str) -> (r: Option<String>)
    ensures
        r is Some <==> name_extension(name@) is Some,
        r matches Some(e) ==> name_extension(name@) == Some(e@),
{
    let cs = chars_of(name);
    let dot: [char; 1] = ['.'];
    assert(dot@ =~= seq!['.']);
    match find_last(cs.as_slice(), &dot) {
        Some(i) => {
            if i > 0 {
                assert(name@.skip(i + 1) =~= name@.subrange(i + 1, name@.len() as int));
                Some(slice_text(cs.as_slice(), i + 1, cs.len()))
            } else {
                None
            }
        },
        None => None,
    }
}

/// The extension of the file that `p` names.
pub fn path_extension(p: &str) -> (r: Option<String>)
    ensures
        r is Some <==> extension(p@) is Some,
        r matches Some(e) ==> extension(p@) == Some(e@),
{
    let c = path_components(p);
    let n: usize = c.len();
    assert(components(p@).len() == n);
    if n == 0 {
        return None;
    }
    let last = c[n - 1].as_str();
    assert(components(p@).last() == last@);
    proof {
        reveal_strlit(".");
        reveal_strlit("/");
        reveal_strlit("..");
        assert("."@ =~= seq!['.']);
        assert("/"@ =~= seq!['/']);
        assert(".."@ =~= seq!['.', '.']);
    }
    if same_text(last, "/") || same_text(last, ".") || same_text(last, "..") {
        return None;
    }
    file_name_extension(last)
}

/// The text of a joined path: an absolute path stays as it is, and a relative
/// one is put behind the folder, with one slash between them.
pub proof fn law_joined_text(base: Seq<char>, p: Seq<char>)
    ensures
        p.len() > 0 && p[0] == '/' ==> joined(base, p) == p,
        !(p.len() > 0 && p[0] == '/') ==> joined(base, p) == below(base, p),
        base.len() == 0 ==> below(base, p) == p,
        base.len() > 0 && base.last() == '/' ==> below(base, p) == base + p,
        base.len() > 0 && base.last() != '/' ==> below(base, p) == base + seq!['/'] + p,
{
    assert(base.push('/') =~= base + seq!['/']);
    if base.len() == 0 {
        assert(base + p =~= p);
    }
}

/// The segments put together again, with a slash between them.
pub open spec fn rejoined(segs: Seq<Seq<char>>) -> Seq<char>
    decreases segs.len(),
{
    if segs.len() == 0 {
        Seq::empty()
    } else if segs.len() == 1 {
        segs[0]
    } else {
        rejoined(segs.drop_last()) + seq!['/'] + segs.last()
    }
}

/// A path is its segments with slashes between them, and no segment holds a slash.
pub proof fn law_segments(p: Seq<char>)
    ensures
        segments(p).len() > 0,
        rejoined(segments(p)) == p,
        forall|i: int, k: int|
            0 <= i < segments(p).len() && 0 <= k < segments(p)[i].len() ==> #[trigger] segments(
                p,
            )[i][k] != '/',
    decreases p.len(),
{
    lemma_segments_some(p);
    if p.len() == 0 {
        assert(rejoined(segments(p)) =~= p);
    } else {
        let q = p.drop_last();
        law_segments(q);
        let b = segments(q);
        let s = segments(p);
        assert(p =~= q.push(p.last()));
        if p.last() == '/' {
            assert(s.drop_last() =~= b);
            assert(rejoined(s) =~= p);
            assert forall|i: int, k: int| 0 <= i < s.len() && 0 <= k < s[i].len() implies #[trigger]
            s[i][k] != '/' by {
                assert(i < b.len() && s[i] == b[i]);
                assert(b[i][k] != '/');
            }
        } else {
            assert(s.drop_last() =~= b.drop_last());
            assert(s.len() == b.len());
            assert(rejoined(s) =~= p);
            assert forall|i: int, k: int| 0 <= i < s.len() && 0 <= k < s[i].len() implies #[trigger]
            s[i][k] != '/' by {
                if i < b.len() - 1 {
                    assert(s[i] == b[i]);
                    assert(b[i][k] != '/');
                } else if k < b.last().len() {
                    assert(b[i][k] != '/');
                }
            }
        }
    }
}

/// A name, which holds no slash and is more than a dot, is one component, and
/// one more behind the components of any folder; `..` is such a name.
pub proof fn law_name_is_component(base: Seq<char>, name: Seq<char>)
    requires
        name.len() > 0,
        name != seq!['.'],
        forall|i: int| 0 <= i < name.len() ==> #[trigger] name[i] != '/',
    ensures
        components(name) == seq![name],
        components(joined(base, name)) == components(base).push(name),
{
    lemma_one_segment(name);
    assert(name[0] != '/');
    law_join_name(base, name);
    law_join_name(Seq::empty(), name);
    lemma_no_components();
    law_joined_text(Seq::empty(), name);
    assert(Seq::<Seq<char>>::empty().push(name) =~= seq![name]);
}

/// The components of a path are those of its parts. A slash too many and a
/// dot between slashes do not count.
pub proof fn law_components_of_parts(a: Seq<char>, b: Seq<char>)
    requires
        a.len() > 0,
        a.last() != '/',
    ensures
        components(Seq::empty()) == Seq::<Seq<char>>::empty(),
        components(seq!['/']) == seq![seq!['/']],
        components(a + seq!['/'] + b) == components(a) + (if b.len() > 0 && (b[0] == '/' || segments(
            b,
        )[0] == seq!['.']) {
            components(b).drop_first()
        } else {
            components(b)
        }),
        components(a + seq!['/']) == components(a),
        components(a + seq!['/', '.']) == components(a),
{
    lemma_no_components();
    law_joined_text(a, b);
    lemma_components_below(a, b);
    let n = names(segments(b));
    if is_absolute(b) {
        assert((seq![seq!['/']] + n).drop_first() =~= n);
    } else if segments(b)[0] == seq!['.'] {
        assert(b.len() > 0) by {
            if b.len() == 0 {
                assert(segments(b)[0].len() == 0);
            }
        }
        assert((seq![seq!['.']] + n).drop_first() =~= n);
    }
    let e = Seq::<char>::empty();
    law_joined_text(a, e);
    lemma_components_below(a, e);
    assert(a + seq!['/'] + e =~= a + seq!['/']);
    let none: Seq<Seq<char>> = seq![Seq::empty()];
    assert(segments(e) =~= none);
    assert(names(none) =~= Seq::empty()) by {
        reveal_with_fuel(Seq::filter, 2);
        assert(none.drop_last() =~= Seq::empty());
    }
    assert(components(a) + Seq::empty() =~= components(a));
    let dot = seq!['.'];
    law_joined_text(a, dot);
    lemma_components_below(a, dot);
    assert(a + seq!['/'] + dot =~= a + seq!['/', '.']);
    lemma_one_segment(dot);
    assert(names(seq![dot]) =~= Seq::empty()) by {
        reveal_with_fuel(Seq::filter, 2);
        assert(seq![dot].drop_last() =~= Seq::empty());
    }
    let root = seq!['/'];
    let two: Seq<Seq<char>> = seq![Seq::empty(), Seq::empty()];
    assert(root.drop_last() =~= e);
    assert(segments(root) =~= two);
    assert(names(two) =~= Seq::empty()) by {
        reveal_with_fuel(Seq::filter, 3);
        assert(two.drop_last() =~= none);
        assert(none.drop_last() =~= Seq::empty());
    }
    assert(components(root) =~= seq![seq!['/']]);
}

/// A path lies within a folder exactly where its components are those of the
/// folder and then some.
pub proof fn law_within(p: Seq<char>, base: Seq<char>)
    ensures
        is_within(p, base) <==> exists|rest: Seq<Seq<char>>| #[trigger]
            (components(base) + rest) == components(p),
{
    let a = components(p);
    let b = components(base);
    if is_within(p, base) {
        assert(b + a.skip(b.len() as int) =~= a);
    }
    if exists|rest: Seq<Seq<char>>| #[trigger] (b + rest) == a {
        assert(a.subrange(0, b.len() as int) =~= b);
    }
}

/// The extension of a file is what follows the last dot of its name, in any
/// folder; a name has none that holds no dot, or only one in front.
pub proof fn law_extension(base: Seq<char>, stem: Seq<char>, ext: Seq<char>, plain: Seq<char>)
    requires
        stem.len() > 0,
        forall|i: int| 0 <= i < stem.len() ==> #[trigger] stem[i] != '/',
        forall|i: int| 0 <= i < ext.len() ==> #[trigger] ext[i] != '/' && ext[i] != '.',
        stem != seq!['.'] || ext.len() > 0,
        plain.len() > 0,
        forall|i: int| 0 <= i < plain.len() ==> #[trigger] plain[i] != '/' && plain[i] != '.',
    ensures
        extension(joined(base, stem + seq!['.'] + ext)) == Some(ext),
        extension(joined(base, plain)) is None,
        extension(joined(base, seq!['.'] + plain)) is None,
{
    let name = stem + seq!['.'] + ext;
    let n = stem.len() as int;
    assert(name[n] == '.');
    assert forall|i: int| 0 <= i < name.len() implies #[trigger] name[i] != '/' by {
        if i < n {
            assert(name[i] == stem[i]);
        } else if i > n {
            assert(name[i] == ext[i - n - 1]);
        }
    }
    assert(name.len() >= 2);
    law_name_is_component(base, name);
    let c = components(joined(base, name));
    assert(c.last() == name);
    if name == seq!['.', '.'] {
        assert(name.len() == 2);
        assert(stem =~= seq!['.']) by {
            assert(stem[0] == name[0]);
        }
    }
    assert(name.subrange(n, n + 1) =~= seq!['.']);
    assert forall|j: int| occurs_at(name, seq!['.'], j) implies j <= n by {
        assert(name.subrange(j, j + 1)[0] == name[j]);
        if j > n {
            assert(name[j] == ext[j - n - 1]);
        }
    }
    lemma_last(name, seq!['.'], n);
    assert(name.skip(n + 1) =~= ext);
    assert(plain[0] != '.');
    law_name_is_component(base, plain);
    assert(components(joined(base, plain)).last() == plain);
    assert forall|j: int| !occurs_at(plain, seq!['.'], j) by {
        if occurs_at(plain, seq!['.'], j) {
            assert(plain.subrange(j, j + 1)[0] == plain[j]);
        }
    }
    let hidden = seq!['.'] + plain;
    assert forall|i: int| 0 <= i < hidden.len() implies #[trigger] hidden[i] != '/' by {
        if i > 0 {
            assert(hidden[i] == plain[i - 1]);
        }
    }
    law_name_is_component(base, hidden);
    assert(components(joined(base, hidden)).last() == hidden);
    assert(hidden.subrange(0, 1) =~= seq!['.']);
    assert forall|j: int| occurs_at(hidden, seq!['.'], j) implies j <= 0 by {
        assert(hidden.subrange(j, j + 1)[0] == hidden[j]);
        if j > 0 {
            assert(hidden[j] == plain[j - 1]);
        }
    }
    lemma_last(hidden, seq!['.'], 0);
}

} // verus!
