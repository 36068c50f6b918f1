//! Paths as texts, with `/` between their parts.
use vstd::prelude::*;

use crate::text;

verus! {

broadcast use vstd::string::group_string_axioms;

/// A part of a path that names something: neither empty nor `.`.
pub open spec fn naming(part: Seq<char>) -> bool {
    part.len() > 0 && part != "."@
}

/// The naming parts, in order; `..` is one of them.
pub open spec fn naming_parts(parts: Seq<Seq<char>>) -> Seq<Seq<char>>
    decreases parts.len(),
{
    if parts.len() == 0 {
        Seq::empty()
    } else if naming(parts.last()) {
        naming_parts(parts.drop_last()).push(parts.last())
    } else {
        naming_parts(parts.drop_last())
    }
}

/// The names on the way along a path.
pub open spec fn names(path: Seq<char>) -> Seq<Seq<char>> {
    naming_parts(text::split_on(path, '/'))
}

pub open spec fn absolute(path: Seq<char>) -> bool {
    path.len() > 0 && path[0] == '/'
}

/// A path whose first part is `.`: that part counts as a component.
pub open spec fn from_here(path: Seq<char>) -> bool {
    text::split_on(path, '/')[0] == "."@
}

/// How many components a path has: the root or a leading `.`, and its names.
pub open spec fn component_count(path: Seq<char>) -> nat {
    (if absolute(path) || from_here(path) {
        1nat
    } else {
        0nat
    }) + names(path).len()
}

/// The last name of a path, unless it leads upwards.
pub open spec fn file_name_of(path: Seq<char>) -> Option<Seq<char>> {
    let parts = names(path);
    if parts.len() > 0 && parts.last() != ".."@ {
        Some(parts.last())
    } else {
        None
    }
}

/// The names of a path, as strings.
pub fn names_of(path: &str) -> (r: Vec<String>)
    ensures
        text::texts(r@) == names(path@),
{
    let parts = text::split(path, '/');
    let ghost all = text::texts(parts@);
    let mut out: Vec<String> = Vec::new();
    let mut i: usize = 0;
    assert(all.take(0) =~= Seq::<Seq<char>>::empty());
    assert(text::texts(out@) =~= Seq::<Seq<char>>::empty());
    while i < parts.len()
        invariant
            i <= parts.len(),
            all == text::texts(parts@),
            text::texts(out@) == naming_parts(all.take(i as int)),
        decreases parts.len() - i,
    {
        let ghost before = text::texts(out@);
        proof {
            assert(all.take(i + 1).drop_last() =~= all.take(i as int));
            assert(all.take(i + 1).last() == parts@[i as int]@);
        }
        if !parts[i].as_str().is_empty() && !text::same(parts[i].as_str(), ".") {
            let part = parts[i].clone();
            out.push(part);
            assert(text::texts(out@) =~= before.push(part@));
        }
        i += 1;
    }
    assert(all.take(all.len() as int) =~= all);
    out
}

pub fn is_absolute(path: &str) -> (r: bool)
    ensures
        r == absolute(path@),
{
    let v = text::chars_of(path);
    v.len() > 0 && v[0] == '/'
}

proof fn lemma_split_nonempty(s: Seq<char>, c: char)
    ensures
        text::split_on(s, c).len() > 0,
{
}

pub fn is_from_here(path: &str) -> (r: bool)
    ensures
        r == from_here(path@),
{
    let parts = text::split(path, '/');
    proof {
        lemma_split_nonempty(path@, '/');
        assert(text::texts(parts@)[0] == parts@[0]@);
    }
    text::same(parts[0].as_str(), ".")
}

/// Whether a path has exactly one component.
pub fn is_single_component(path: &str) -> (r: bool)
    ensures
        r == (component_count(path@) == 1),
{
    let parts = text::split(path, '/');
    proof {
        lemma_split_nonempty(path@, '/');
        assert(text::texts(parts@)[0] == parts@[0]@);
    }
    let found = names_of(path);
    assert(found@.len() == text::texts(found@).len());
    if is_absolute(path) || text::same(parts[0].as_str(), ".") {
        found.len() == 0
    } else {
        found.len() == 1
    }
}

/// `Path::file_name`.
pub fn file_name(path: &str) -> (r: Option<String>)
    ensures
        crate::story_plan::opt_text(r) == file_name_of(path@),
{
    let found = names_of(path);
    assert(found@.len() == text::texts(found@).len());
    if found.len() > 0 {
        let last = found[found.len() - 1].clone();
        assert(text::texts(found@).last() == last@);
        if !text::same(last.as_str(), "..") {
            return Some(last);
        }
    }
    None
}

/// The position of the last dot of a name, or -1 where there is none.
pub open spec fn last_dot(name: Seq<char>) -> int
    decreases name.len(),
{
    if name.len() == 0 {
        -1
    } else if name.last() == '.' {
        name.len() - 1
    } else {
        last_dot(name.drop_last())
    }
}

/// What follows the last dot of a file name, unless that dot leads the name.
pub open spec fn extension_of(path: Seq<char>) -> Option<Seq<char>> {
    match file_name_of(path) {
        None => None,
        Some(name) => if last_dot(name) > 0 {
            Some(name.skip(last_dot(name) + 1))
        } else {
            None
        },
    }
}

/// A file name without its extension.
pub open spec fn stem_of(path: Seq<char>) -> Option<Seq<char>> {
    match file_name_of(path) {
        None => None,
        Some(name) => if last_dot(name) > 0 {
            Some(name.take(last_dot(name)))
        } else {
            Some(name)
        },
    }
}

proof fn lemma_last_dot(name: Seq<char>, k: int)
    requires
        -1 <= k < name.len(),
        k >= 0 ==> name[k] == '.',
        forall|j: int| k < j < name.len() ==> name[j] != '.',
    ensures
        last_dot(name) == k,
    decreases name.len(),
{
    if name.len() > 0 && name.last() != '.' {
        lemma_last_dot(name.drop_last(), k);
    }
}

/// One past the position of the last dot, or zero.
fn after_last_dot(v: &Vec<char>) -> (r: usize)
    ensures
        r <= v.len(),
        r == last_dot(v@) + 1,
{
    let mut i: usize = v.len();
    while i > 0 && v[i - 1] != '.'
        invariant
            i <= v.len(),
            forall|j: int| i <= j < v.len() ==> v@[j] != '.',
        decreases i,
    {
        i -= 1;
    }
    proof {
        lemma_last_dot(v@, i - 1);
    }
    i
}

/// `Path::extension`.
pub fn extension(path: &str) -> (r: Option<String>)
    ensures
        crate::story_plan::opt_text(r) == extension_of(path@),
{
    match file_name(path) {
        None => None,
        Some(name) => {
            let v = text::chars_of(name.as_str());
            let k = after_last_dot(&v);
            if k > 1 {
                let r = text::string_of_range(&v, k, v.len());
                assert(r@ =~= name@.skip(k as int));
                Some(r)
            } else {
                None
            }
        },
    }
}

/// `Path::file_stem`.
pub fn file_stem(path: &str) -> (r: Option<String>)
    ensures
        crate::story_plan::opt_text(r) == stem_of(path@),
{
    match file_name(path) {
        None => None,
        Some(name) => {
            let v = text::chars_of(name.as_str());
            let k = after_last_dot(&v);
            if k > 1 {
                let r = text::string_of_range(&v, 0, k - 1);
                assert(r@ =~= name@.take(k - 1));
                Some(r)
            } else {
                Some(name)
            }
        },
    }
}

/// Whether `base` is where `path` starts, name by name.
pub open spec fn within(path: Seq<char>, base: Seq<char>) -> bool {
    absolute(path) == absolute(base) && from_here(path) == from_here(base) && names(base).len()
        <= names(path).len() && names(path).take(names(base).len() as int) == names(base)
}

/// `Path::starts_with`.
pub fn is_within(path: &str, base: &str) -> (r: bool)
    ensures
        r == within(path@, base@),
{
    let p = text::split(path, '/');
    let b = text::split(base, '/');
    proof {
        lemma_split_nonempty(path@, '/');
        lemma_split_nonempty(base@, '/');
        assert(text::texts(p@)[0] == p@[0]@);
        assert(text::texts(b@)[0] == b@[0]@);
    }
    if is_absolute(path) != is_absolute(base) {
        return false;
    }
    if text::same(p[0].as_str(), ".") != text::same(b[0].as_str(), ".") {
        return false;
    }
    let long = names_of(path);
    let short = names_of(base);
    let ghost ls = names(path@);
    let ghost ss = names(base@);
    assert(long@.len() == ls.len() && short@.len() == ss.len());
    if short.len() > long.len() {
        return false;
    }
    let mut i: usize = 0;
    while i < short.len()
        invariant
            i <= short.len() <= long.len(),
            ls == text::texts(long@),
            ss == text::texts(short@),
            ls == names(path@),
            ss == names(base@),
            forall|j: int| 0 <= j < i ==> ls[j] == ss[j],
        decreases short.len() - i,
    {
        if !text::same(long[i].as_str(), short[i].as_str()) {
            assert(ls.take(ss.len() as int)[i as int] != ss[i as int]);
            return false;
        }
        i += 1;
    }
    assert(ls.take(ss.len() as int) =~= ss);
    true
}

/// Whether two paths are the same, part by part.
pub open spec fn same_path(a: Seq<char>, b: Seq<char>) -> bool {
    absolute(a) == absolute(b) && from_here(a) == from_here(b) && names(a) == names(b)
}

/// `Path::eq`.
pub fn is_same_path(a: &str, b: &str) -> (r: bool)
    ensures
        r == same_path(a@, b@),
{
    let r = is_within(a, b) && is_within(b, a);
    proof {
        assert(names(a@).take(names(a@).len() as int) =~= names(a@));
        assert(names(b@).take(names(b@).len() as int) =~= names(b@));
    }
    r
}

/// `path` under `root`: an absolute `path` stands alone.
pub open spec fn joined(root: Seq<char>, path: Seq<char>) -> Seq<char> {
    if absolute(path) {
        path
    } else if root.len() == 0 || root.last() == '/' {
        root + path
    } else {
        root + "/"@ + path
    }
}

/// `Path::join`.
pub fn join(root: &str, path: &str) -> (r: String)
    ensures
        r@ == joined(root@, path@),
{
    if is_absolute(path) {
        return text::copy(path);
    }
    let v = text::chars_of(root);
    let mut s = text::copy(root);
    if v.len() > 0 && v[v.len() - 1] != '/' {
        s.append("/");
    }
    s.append(path);
    s
}

/// A path that stays below the directory that it is read from: relative, and
/// with nothing but names in it.
pub open spec fn descending(path: Seq<char>) -> bool {
    !absolute(path) && !from_here(path) && forall|i: int|
        0 <= i < names(path).len() ==> #[trigger] names(path)[i] != ".."@
}

pub fn is_descending(path: &str) -> (r: bool)
    ensures
        r == descending(path@),
{
    if is_absolute(path) {
        return false;
    }
    let parts = text::split(path, '/');
    proof {
        lemma_split_nonempty(path@, '/');
        assert(text::texts(parts@)[0] == parts@[0]@);
    }
    if text::same(parts[0].as_str(), ".") {
        return false;
    }
    let found = names_of(path);
    let ghost ns = names(path@);
    let mut i: usize = 0;
    while i < found.len()
        invariant
            i <= found.len(),
            ns == text::texts(found@),
            ns == names(path@),
            forall|j: int| 0 <= j < i ==> #[trigger] ns[j] != ".."@,
        decreases found.len() - i,
    {
        if text::same(found[i].as_str(), "..") {
            assert(ns[i as int] == ".."@);
            return false;
        }
        i += 1;
    }
    true
}

/// A file name on its own: one part, which names something and leads nowhere
/// else.
pub open spec fn plain_name(name: Seq<char>) -> bool {
    file_name_of(name) == Some(name)
}

/// A text without `/` is one part.
pub proof fn lemma_single_part(s: Seq<char>)
    requires
        !s.contains('/'),
    ensures
        text::split_on(s, '/') == seq![s],
        names(s) == (if naming(s) {
            seq![s]
        } else {
            Seq::empty()
        }),
{
    text::lemma_index_of(s, '/');
    let parts = text::split_on(s, '/');
    assert(parts =~= seq![s]);
    reveal_with_fuel(naming_parts, 2);
    assert(parts.drop_last() =~= Seq::<Seq<char>>::empty());
    assert(names(s) =~= if naming(s) {
        seq![s]
    } else {
        Seq::<Seq<char>>::empty()
    });
}

proof fn lemma_parts_clean(s: Seq<char>, i: int)
    requires
        0 <= i < text::split_on(s, '/').len(),
    ensures
        !text::split_on(s, '/')[i].contains('/'),
    decreases s.len(),
{
    text::lemma_index_of(s, '/');
    let k = text::index_of(s, '/');
    if k < s.len() {
        if i == 0 {
            assert forall|j: int| 0 <= j < s.take(k).len() implies s.take(k)[j] != '/' by {}
        } else {
            lemma_parts_clean(s.skip(k + 1), i - 1);
        }
    }
}

proof fn lemma_names_clean(parts: Seq<Seq<char>>, i: int)
    requires
        forall|j: int| 0 <= j < parts.len() ==> !(#[trigger] parts[j]).contains('/'),
        0 <= i < naming_parts(parts).len(),
    ensures
        !naming_parts(parts)[i].contains('/'),
    decreases parts.len(),
{
    let d = parts.drop_last();
    assert forall|j: int| 0 <= j < d.len() implies !(#[trigger] d[j]).contains('/') by {
        assert(!parts[j].contains('/'));
    }
    assert(!parts[parts.len() - 1].contains('/'));
    if i < naming_parts(d).len() {
        lemma_names_clean(d, i);
    }
}

/// A plain file name is a non-empty text without `/` that is neither `.` nor
/// `..`.
pub proof fn plain_names_have_no_separator(name: Seq<char>)
    ensures
        plain_name(name) <==> name.len() > 0 && !name.contains('/') && name != "."@ && name
            != ".."@,
{
    if !name.contains('/') {
        lemma_single_part(name);
    } else if plain_name(name) {
        let parts = text::split_on(name, '/');
        assert forall|j: int| 0 <= j < parts.len() implies !(#[trigger] parts[j]).contains('/') by {
            lemma_parts_clean(name, j);
        }
        lemma_names_clean(parts, names(name).len() - 1);
    }
}

/// Whether a text is a plain file name.
pub fn is_plain_name(name: &str) -> (r: bool)
    ensures
        r == plain_name(name@),
{
    proof {
        plain_names_have_no_separator(name@);
    }
    !name.is_empty() && !text::contains_char(name, '/') && !text::same(name, ".") && !text::same(
        name,
        "..",
    )
}

/// A path is not both absolute and read from here.
pub proof fn lemma_not_both(path: Seq<char>)
    ensures
        !(absolute(path) && from_here(path)),
{
    if absolute(path) {
        text::lemma_index_of(path, '/');
        assert(text::index_of(path, '/') == 0);
        assert(text::split_on(path, '/')[0].len() == 0);
        reveal_strlit(".");
    }
}

proof fn lemma_split_at(a: Seq<char>, b: Seq<char>)
    ensures
        text::split_on(a.push('/') + b, '/') == text::split_on(a, '/') + text::split_on(b, '/'),
    decreases a.len(),
{
    let s = a.push('/') + b;
    text::lemma_index_of(a, '/');
    let k = text::index_of(a, '/');
    if k < a.len() {
        assert(s[k] == '/');
        assert forall|j: int| 0 <= j < k implies s[j] != '/' by {
            assert(s[j] == a[j]);
        }
        text::lemma_index_of_unique(s, '/', k);
        assert(s.take(k) =~= a.take(k));
        assert(s.skip(k + 1) =~= a.skip(k + 1).push('/') + b);
        lemma_split_at(a.skip(k + 1), b);
        assert(seq![a.take(k)] + (text::split_on(a.skip(k + 1), '/') + text::split_on(b, '/'))
            =~= (seq![a.take(k)] + text::split_on(a.skip(k + 1), '/')) + text::split_on(b, '/'));
    } else {
        let n = a.len() as int;
        assert forall|j: int| 0 <= j < n implies s[j] != '/' by {
            assert(s[j] == a[j]);
        }
        text::lemma_index_of_unique(s, '/', n);
        assert(s.take(n) =~= a);
        assert(s.skip(n + 1) =~= b);
    }
}

proof fn lemma_naming_parts_add(x: Seq<Seq<char>>, y: Seq<Seq<char>>)
    ensures
        naming_parts(x + y) == naming_parts(x) + naming_parts(y),
    decreases y.len(),
{
    if y.len() == 0 {
        assert(x + y =~= x);
        assert(naming_parts(x) + naming_parts(y) =~= naming_parts(x));
    } else {
        lemma_naming_parts_add(x, y.drop_last());
        assert((x + y).drop_last() =~= x + y.drop_last());
        assert((x + y).last() == y.last());
        if naming(y.last()) {
            assert((naming_parts(x) + naming_parts(y.drop_last())).push(y.last())
                =~= naming_parts(x) + naming_parts(y.drop_last()).push(y.last()));
        }
    }
}

/// A path below a directory has the directory's names and then its own.
pub proof fn lemma_names_joined(root: Seq<char>, path: Seq<char>)
    requires
        !absolute(path),
    ensures
        names(joined(root, path)) == names(root) + names(path),
{
    let none = Seq::<char>::empty();
    lemma_single_part(none);
    reveal_strlit("/");
    if root.len() == 0 {
        assert(root =~= none);
        assert(root + path =~= path);
        assert(names(root) + names(path) =~= names(path));
    } else {
        let base = if root.last() == '/' {
            root.drop_last()
        } else {
            root
        };
        if root.last() == '/' {
            assert(root =~= base.push('/') + none);
            lemma_split_at(base, none);
            lemma_naming_parts_add(text::split_on(base, '/'), text::split_on(none, '/'));
            assert(names(root) =~= names(base));
        }
        assert(joined(root, path) =~= base.push('/') + path);
        lemma_split_at(base, path);
        lemma_naming_parts_add(text::split_on(base, '/'), text::split_on(path, '/'));
    }
}

proof fn lemma_split_joined(parts: Seq<Seq<char>>)
    requires
        parts.len() > 0,
        forall|i: int| 0 <= i < parts.len() ==> !(#[trigger] parts[i]).contains('/'),
    ensures
        text::split_on(text::join_with(parts, "/"@), '/') == parts,
    decreases parts.len(),
{
    reveal_strlit("/");
    if parts.len() == 1 {
        assert(!parts[0].contains('/'));
        lemma_single_part(parts[0]);
        assert(parts =~= seq![parts[0]]);
    } else {
        let d = parts.drop_last();
        assert forall|i: int| 0 <= i < d.len() implies !(#[trigger] d[i]).contains('/') by {
            assert(d[i] == parts[i]);
        }
        lemma_split_joined(d);
        assert(!parts[parts.len() - 1].contains('/'));
        lemma_single_part(parts.last());
        let front = text::join_with(d, "/"@);
        assert(text::join_with(parts, "/"@) =~= front.push('/') + parts.last());
        lemma_split_at(front, parts.last());
        assert(d + seq![parts.last()] =~= parts);
    }
}

proof fn lemma_naming_parts_kept(parts: Seq<Seq<char>>)
    requires
        forall|i: int| 0 <= i < parts.len() ==> naming(#[trigger] parts[i]),
    ensures
        naming_parts(parts) == parts,
    decreases parts.len(),
{
    if parts.len() > 0 {
        let d = parts.drop_last();
        assert forall|i: int| 0 <= i < d.len() implies naming(#[trigger] d[i]) by {
            assert(d[i] == parts[i]);
        }
        lemma_naming_parts_kept(d);
        assert(naming(parts[parts.len() - 1]));
        assert(d.push(parts.last()) =~= parts);
    } else {
        assert(naming_parts(parts) =~= parts);
    }
}

proof fn lemma_naming(parts: Seq<Seq<char>>, i: int)
    requires
        0 <= i < naming_parts(parts).len(),
    ensures
        naming(naming_parts(parts)[i]),
    decreases parts.len(),
{
    if i < naming_parts(parts.drop_last()).len() {
        lemma_naming(parts.drop_last(), i);
    }
}

/// What is left of a path behind the directory that it lies in.
pub open spec fn below(path: Seq<char>, base: Seq<char>) -> Seq<char> {
    text::join_with(names(path).skip(names(base).len() as int), "/"@)
}

/// `Path::strip_prefix`.
pub fn strip_prefix(path: &str, base: &str) -> (r: Option<String>)
    ensures
        match r {
            Some(rest) => within(path@, base@) && rest@ == below(path@, base@),
            None => !within(path@, base@),
        },
{
    if !is_within(path, base) {
        return None;
    }
    let long = names_of(path);
    let short = names_of(base);
    let ghost ls = names(path@);
    assert(long@.len() == ls.len() && short@.len() == text::texts(short@).len());
    let from = short.len();
    let mut rest: Vec<String> = Vec::new();
    let mut i: usize = from;
    assert(text::texts(rest@) =~= ls.subrange(from as int, i as int));
    while i < long.len()
        invariant
            from <= i <= long.len(),
            ls == text::texts(long@),
            text::texts(rest@) == ls.subrange(from as int, i as int),
        decreases long.len() - i,
    {
        let ghost before = text::texts(rest@);
        let name = long[i].clone();
        rest.push(name);
        assert(text::texts(rest@) =~= before.push(name@));
        assert(ls.subrange(from as int, i + 1) =~= before.push(ls[i as int]));
        i += 1;
    }
    assert(text::texts(rest@) =~= ls.skip(from as int));
    Some(text::join(&rest, "/"))
}

/// What is left of a path behind a directory leads from that directory to the path,
/// and stays below it where the path does not lead upwards.
pub proof fn stripped_paths_lead_back(path: Seq<char>, base: Seq<char>)
    requires
        within(path, base),
        absolute(base),
    ensures
        same_path(joined(base, below(path, base)), path),
        (forall|i: int| 0 <= i < names(path).len() ==> #[trigger] names(path)[i] != ".."@)
            ==> descending(below(path, base)),
{
    let rest = names(path).skip(names(base).len() as int);
    let text = below(path, base);
    reveal_strlit("/");
    reveal_strlit(".");
    assert forall|i: int| 0 <= i < rest.len() implies naming(#[trigger] rest[i]) && !rest[i].contains(
        '/',
    ) by {
        let parts = text::split_on(path, '/');
        assert forall|j: int| 0 <= j < parts.len() implies !(#[trigger] parts[j]).contains('/') by {
            lemma_parts_clean(path, j);
        }
        assert(rest[i] == names(path)[i + names(base).len()]);
        lemma_naming(parts, i + names(base).len());
        lemma_names_clean(parts, i + names(base).len());
    }
    if rest.len() == 0 {
        lemma_single_part(text);
        assert(names(text) =~= rest);
    } else {
        lemma_split_joined(rest);
        lemma_naming_parts_kept(rest);
        text::lemma_index_of(text, '/');
        assert(naming(rest[0]));
        if absolute(text) {
            assert(text::index_of(text, '/') == 0);
            assert(text::split_on(text, '/')[0].len() == 0);
        }
    }
    assert(names(text) == rest);
    assert(!absolute(text) && !from_here(text));
    lemma_names_joined(base, text);
    assert(names(base) + rest =~= names(path)) by {
        assert(names(path).take(names(base).len() as int) == names(base));
    }
    assert(joined(base, text)[0] == base[0]);
    lemma_not_both(joined(base, text));
    lemma_not_both(path);
    if forall|i: int| 0 <= i < names(path).len() ==> #[trigger] names(path)[i] != ".."@ {
        assert forall|i: int| 0 <= i < rest.len() implies #[trigger] rest[i] != ".."@ by {
            assert(rest[i] == names(path)[i + names(base).len()]);
        }
    }
}

// ---------------------------------------------------------------------------
// Laws
// ---------------------------------------------------------------------------

/// A file name is its stem, a dot and its extension, where the extension holds no dot and
/// something stands before it; a name without a dot is all stem.
pub proof fn file_names_are_stem_and_extension(stem: Seq<char>, ext: Seq<char>, bare: Seq<char>)
    requires
        stem.len() > 0,
        !ext.contains('.'),
        plain_name(stem + "."@ + ext),
        plain_name(bare),
        !bare.contains('.'),
    ensures
        extension_of(stem + "."@ + ext) == Some(ext),
        stem_of(stem + "."@ + ext) == Some(stem),
        extension_of(bare) is None,
        stem_of(bare) == Some(bare),
{
    reveal_strlit(".");
    let name = stem + "."@ + ext;
    assert forall|j: int| stem.len() < j < name.len() implies name[j] != '.' by {
        assert(name[j] == ext[j - stem.len() - 1]);
        assert(ext.contains(ext[j - stem.len() - 1]));
    }
    lemma_last_dot_is(name, stem.len() as int);
    assert(name.skip((stem.len() + 1) as int) =~= ext);
    assert(name.take(stem.len() as int) =~= stem);
    assert forall|j: int| -1 < j < bare.len() implies bare[j] != '.' by {
        assert(bare.contains(bare[j]));
    }
    lemma_last_dot_is(bare, -1);
}

proof fn lemma_last_dot_is(name: Seq<char>, k: int)
    requires
        -1 <= k < name.len(),
        k >= 0 ==> name[k] == '.',
        forall|j: int| k < j < name.len() ==> name[j] != '.',
    ensures
        last_dot(name) == k,
    decreases name.len(),
{
    if name.len() > 0 && name.last() != '.' {
        lemma_last_dot_is(name.drop_last(), k);
    }
}

/// A plain name below a directory is the file name of the path that joins them, and a
/// path that only descends stays within the directory that it is joined to.
pub proof fn joined_paths_stay_within(root: Seq<char>, name: Seq<char>, path: Seq<char>)
    requires
        plain_name(name),
        descending(path),
        root.len() > 0,
    ensures
        file_name_of(joined(root, name)) == Some(name),
        names(joined(root, path)) == names(root) + names(path),
        absolute(root) ==> within(joined(root, path), root),
        absolute(path) ==> joined(root, path) == path,
{
    plain_names_have_no_separator(name);
    lemma_single_part(name);
    assert(!absolute(name)) by {
        if absolute(name) {
            assert(name.contains(name[0]));
        }
    }
    lemma_names_joined(root, name);
    assert((names(root) + seq![name]).last() == name);
    lemma_names_joined(root, path);
    assert((names(root) + names(path)).take(names(root).len() as int) =~= names(root));
    if absolute(root) {
        assert(joined(root, path)[0] == root[0]);
        lemma_not_both(joined(root, path));
        lemma_not_both(root);
    }
}

/// The names of a path are what its slashes separate, without the empty parts and the `.`; a path is
/// absolute where it begins with a slash, and read from here where its first part is `.`.
pub proof fn paths_are_read_by_their_names(a: Seq<char>, b: Seq<char>, name: Seq<char>)
    requires
        !name.contains('/'),
    ensures
        names(a + seq!['/'] + b) == names(a) + names(b),
        names(name) == (if name == Seq::<char>::empty() || name == seq!['.'] {
            Seq::<Seq<char>>::empty()
        } else {
            seq![name]
        }),
        absolute(seq!['/'] + b),
        !absolute(name),
        from_here(seq!['.', '/'] + b),
        from_here(name) <==> name == seq!['.'],
        from_here(name + seq!['/'] + b) <==> name == seq!['.'],
{
    reveal_strlit(".");
    assert("."@ =~= seq!['.']);
    assert(a + seq!['/'] + b =~= a.push('/') + b);
    lemma_split_at(a, b);
    lemma_naming_parts_add(text::split_on(a, '/'), text::split_on(b, '/'));
    lemma_single_part(name);
    if name.len() == 0 {
        assert(name =~= Seq::<char>::empty());
    }
    assert(!absolute(name)) by {
        if absolute(name) {
            assert(name.contains(name[0]));
        }
    }
    let dot = seq!['.'];
    assert(!dot.contains('/'));
    lemma_single_part(dot);
    assert(seq!['.', '/'] + b =~= dot.push('/') + b);
    lemma_split_at(dot, b);
    assert((text::split_on(dot, '/') + text::split_on(b, '/'))[0] == dot);
    assert(name + seq!['/'] + b =~= name.push('/') + b);
    lemma_split_at(name, b);
    assert((text::split_on(name, '/') + text::split_on(b, '/'))[0] == name);
}

/// Two paths are the same where they begin alike and have the same names; one is within another
/// where they begin alike and it has the other's names and then its own. The file name is the last
/// name, unless that leads up.
pub proof fn paths_are_compared_by_their_names(a: Seq<char>, b: Seq<char>)
    ensures
        same_path(a, b) <==> absolute(a) == absolute(b) && from_here(a) == from_here(b) && names(a)
            == names(b),
        within(a, b) <==> absolute(a) == absolute(b) && from_here(a) == from_here(b) && exists|
            rest: Seq<Seq<char>>,
        |
            names(a) == #[trigger] (names(b) + rest),
        within(a, b) && within(b, a) <==> same_path(a, b),
        file_name_of(a) is Some <==> names(a).len() > 0 && names(a).last() != ".."@,
        file_name_of(a) is Some ==> file_name_of(a) == Some(names(a).last()),
        within(a, b) ==> below(a, b) == text::join_with(
            names(a).subrange(names(b).len() as int, names(a).len() as int),
            "/"@,
        ),
        descending(a) <==> !absolute(a) && !from_here(a) && !names(a).contains(".."@),
{
    if within(a, b) {
        let rest = names(a).skip(names(b).len() as int);
        assert(names(a) =~= names(b) + rest);
        assert(rest =~= names(a).subrange(names(b).len() as int, names(a).len() as int));
    }
    if exists|rest: Seq<Seq<char>>| names(a) == #[trigger] (names(b) + rest) {
        let rest = choose|rest: Seq<Seq<char>>| names(a) == #[trigger] (names(b) + rest);
        assert(names(a).take(names(b).len() as int) =~= names(b));
    }
    if same_path(a, b) {
        assert(names(a).take(names(b).len() as int) =~= names(b));
        assert(names(b).take(names(a).len() as int) =~= names(a));
    }
    if within(a, b) && within(b, a) {
        assert(names(a).take(names(b).len() as int) =~= names(a));
    }
}

/// A relative path is joined with one slash, none where the root is empty or ends in one; an absolute
/// path stands for itself.
pub proof fn paths_are_joined_by_one_slash(root: Seq<char>, path: Seq<char>)
    requires
        root.len() > 0,
        root[root.len() - 1] != '/',
    ensures
        path.len() > 0 && path[0] == '/' ==> joined(root, path) == path && joined(
            root + seq!['/'],
            path,
        ) == path,
        !(path.len() > 0 && path[0] == '/') ==> joined(root, path) == root + seq!['/'] + path
            && joined(root + seq!['/'], path) == root + seq!['/'] + path && joined(
            Seq::empty(),
            path,
        ) == path,
{
    reveal_strlit("/");
    assert("/"@ =~= seq!['/']);
    assert(Seq::<char>::empty() + path =~= path);
    assert((root + seq!['/']).last() == '/');
}

} // verus!
