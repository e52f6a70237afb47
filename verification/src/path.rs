//! Virtual paths: a root marker and a sequence of names. A path may run on
//! past a file of the real filesystem into the members of an archive.

use vstd::prelude::*;

verus! {

/// A path of the virtual tree. Two paths are the same when they have the
/// same names in the same order and agree on being rooted.
#[derive(Clone, Debug, PartialEq, Eq)]
pub struct VirtualPath {
    pub rooted: bool,
    pub parts: Vec<Vec<char>>,
}

/// The mathematical value of a [`VirtualPath`].
pub ghost struct PathView {
    pub rooted: bool,
    pub parts: Seq<Seq<char>>,
}

/// The names held by a vector of names.
pub open spec fn names_view(parts: Seq<Vec<char>>) -> Seq<Seq<char>> {
    Seq::new(parts.len(), |i: int| parts[i]@)
}

impl PathView {
    /// The path one level down, at the child called `name`.
    pub open spec fn child(self, name: Seq<char>) -> PathView {
        PathView { rooted: self.rooted, parts: self.parts.push(name) }
    }

    /// The path followed by the names of `rest`.
    pub open spec fn join(self, rest: Seq<Seq<char>>) -> PathView {
        PathView { rooted: self.rooted, parts: self.parts + rest }
    }

    /// The ancestor that keeps the first `n` names.
    pub open spec fn ancestor(self, n: int) -> PathView {
        PathView { rooted: self.rooted, parts: self.parts.take(n) }
    }

    /// The relative path made of the names after the first `n`.
    pub open spec fn remainder(self, n: int) -> PathView {
        PathView { rooted: false, parts: self.parts.skip(n) }
    }
}

/// Whether a stretch of text between separators names a level of the tree.
/// Empty stretches and `.` do not. The name `..` is kept as it is written:
/// what it leads to is for the filesystem to say.
pub open spec fn names_a_level(seg: Seq<char>) -> bool {
    &&& seg.len() > 0
    &&& seg != seq!['.']
}

/// The name in progress, if it names a level.
pub open spec fn finished(cur: Seq<char>) -> Seq<Seq<char>> {
    if names_a_level(cur) {
        seq![cur]
    } else {
        Seq::empty()
    }
}

/// The names of `t` read after `cur`, the name in progress: a `/` ends the
/// name in progress, any other character lengthens it.
pub open spec fn split_from(t: Seq<char>, cur: Seq<char>) -> Seq<Seq<char>>
    decreases t.len(),
{
    if t.len() == 0 {
        finished(cur)
    } else if t[0] == '/' {
        finished(cur) + split_from(t.drop_first(), Seq::empty())
    } else {
        split_from(t.drop_first(), cur.push(t[0]))
    }
}

/// The names of a path text, in order.
pub open spec fn segments(t: Seq<char>) -> Seq<Seq<char>> {
    split_from(t, Seq::empty())
}

/// The path that a text denotes: rooted when it starts with `/`.
pub open spec fn path_of(t: Seq<char>) -> PathView {
    PathView { rooted: t.len() > 0 && t[0] == '/', parts: segments(t) }
}

/// The names joined by `/`.
pub open spec fn joined(parts: Seq<Seq<char>>) -> Seq<char>
    decreases parts.len(),
{
    if parts.len() == 0 {
        Seq::empty()
    } else if parts.len() == 1 {
        parts[0]
    } else {
        joined(parts.drop_last()) + seq!['/'] + parts.last()
    }
}

/// The text of a path: its names joined by `/`, after a `/` when rooted.
pub open spec fn text_of(p: PathView) -> Seq<char> {
    if p.rooted {
        seq!['/'] + joined(p.parts)
    } else {
        joined(p.parts)
    }
}

/// Every name names a level and holds no separator.
pub open spec fn plain_names(parts: Seq<Seq<char>>) -> bool {
    forall|i: int|
        0 <= i < parts.len() ==> names_a_level(#[trigger] parts[i]) && !parts[i].contains('/')
}

proof fn lemma_split_plain(a: Seq<char>, b: Seq<char>, cur: Seq<char>)
    requires
        !a.contains('/'),
    ensures
        split_from(a + b, cur) == split_from(b, cur + a),
    decreases a.len(),
{
    if a.len() == 0 {
        assert(a + b =~= b);
        assert(cur + a =~= cur);
    } else {
        let t = a + b;
        assert(t[0] == a[0]);
        assert(a.contains(a[0]));
        assert(t.drop_first() =~= a.drop_first() + b);
        assert forall|c: char| a.drop_first().contains(c) implies a.contains(c) by {
            let i = choose|i: int| 0 <= i < a.drop_first().len() && a.drop_first()[i] == c;
            assert(a[i + 1] == c);
        }
        lemma_split_plain(a.drop_first(), b, cur.push(a[0]));
        assert(cur.push(a[0]) + a.drop_first() =~= cur + a);
    }
}

proof fn lemma_split_at_separator(t: Seq<char>, u: Seq<char>, cur: Seq<char>)
    ensures
        split_from(t + seq!['/'] + u, cur) == split_from(t, cur) + split_from(u, Seq::empty()),
    decreases t.len(),
{
    let whole = t + seq!['/'] + u;
    if t.len() == 0 {
        assert(whole[0] == '/');
        assert(whole.drop_first() =~= u);
    } else {
        assert(whole[0] == t[0]);
        assert(whole.drop_first() =~= t.drop_first() + seq!['/'] + u);
        if t[0] == '/' {
            lemma_split_at_separator(t.drop_first(), u, Seq::empty());
            assert(finished(cur) + (split_from(t.drop_first(), Seq::empty()) + split_from(
                u,
                Seq::empty(),
            )) =~= (finished(cur) + split_from(t.drop_first(), Seq::empty())) + split_from(
                u,
                Seq::empty(),
            ));
        } else {
            lemma_split_at_separator(t.drop_first(), u, cur.push(t[0]));
        }
    }
}

/// Joining plain names and splitting the text again gives the names back.
pub proof fn lemma_segments_of_joined(parts: Seq<Seq<char>>)
    requires
        plain_names(parts),
    ensures
        segments(joined(parts)) == parts,
    decreases parts.len(),
{
    let none = Seq::<char>::empty();
    if parts.len() == 0 {
        assert(segments(joined(parts)) =~= parts);
    } else {
        let last = parts.last();
        assert(split_from(last, none) == seq![last]) by {
            lemma_split_plain(last, none, none);
            assert(last + none =~= last);
            assert(none + last =~= last);
        }
        if parts.len() == 1 {
            assert(seq![last] =~= parts);
        } else {
            let init = parts.drop_last();
            lemma_segments_of_joined(init);
            lemma_split_at_separator(joined(init), last, none);
            assert(init + seq![last] =~= parts);
        }
    }
}

/// A path of plain names is the path that its text denotes.
pub proof fn lemma_path_of_text(p: PathView)
    requires
        plain_names(p.parts),
    ensures
        path_of(text_of(p)) == p,
{
    let none = Seq::<char>::empty();
    let j = joined(p.parts);
    lemma_segments_of_joined(p.parts);
    if p.rooted {
        lemma_split_at_separator(none, j, none);
        assert(none + seq!['/'] + j =~= seq!['/'] + j);
        assert(split_from(none, none) + split_from(j, none) =~= split_from(j, none));
    } else if p.parts.len() > 0 {
        lemma_joined_starts_plain(p.parts);
    }
}

proof fn lemma_joined_starts_plain(parts: Seq<Seq<char>>)
    requires
        plain_names(parts),
        parts.len() > 0,
    ensures
        joined(parts).len() > 0,
        joined(parts)[0] == parts[0][0],
        parts[0][0] != '/',
    decreases parts.len(),
{
    assert(parts[0].contains(parts[0][0]));
    if parts.len() > 1 {
        assert(parts.drop_last()[0] == parts[0]);
        lemma_joined_starts_plain(parts.drop_last());
    }
}

/// Whether `d` is the place of the last `.` of `name`.
pub open spec fn is_last_dot(name: Seq<char>, d: int) -> bool {
    &&& 0 <= d < name.len()
    &&& name[d] == '.'
    &&& forall|k: int| d < k < name.len() ==> name[k] != '.'
}

/// The extension of a file name: what follows its last `.`, unless the name
/// has no `.` or only the one it starts with, or is `..`.
pub open spec fn extension_of(name: Seq<char>) -> Option<Seq<char>> {
    if is_parent_mark(name) {
        None
    } else if exists|d: int| is_last_dot(name, d) && d > 0 {
        let d = choose|d: int| is_last_dot(name, d) && d > 0;
        Some(name.skip(d + 1))
    } else {
        None
    }
}

impl PathView {
    /// The extension of the last name of the path.
    pub open spec fn extension(self) -> Option<Seq<char>> {
        if self.parts.len() == 0 {
            None
        } else {
            extension_of(self.parts.last())
        }
    }
}

/// Whether a stretch of text between separators names a level of the tree.
pub fn names_level(seg: &Vec<char>) -> (b: bool)
    ensures
        b == names_a_level(seg@),
{
    let n = seg.len();
    if n == 0 {
        false
    } else if n == 1 {
        proof {
            assert(seg@[0] == '.' ==> seg@ =~= seq!['.']);
            assert(seq!['.'][0] == '.');
        }
        seg[0] != '.'
    } else {
        true
    }
}

/// Whether a name is `..`, the mark of the level above.
pub open spec fn is_parent_mark(seg: Seq<char>) -> bool {
    seg == seq!['.', '.']
}

/// Whether a name is `..`, the mark of the level above.
pub fn parent_mark(seg: &Vec<char>) -> (b: bool)
    ensures
        b == is_parent_mark(seg@),
{
    if seg.len() == 2 {
        proof {
            assert(seg@[0] == '.' && seg@[1] == '.' ==> seg@ =~= seq!['.', '.']);
            assert(seq!['.', '.'][0] == '.' && seq!['.', '.'][1] == '.');
        }
        seg[0] == '.' && seg[1] == '.'
    } else {
        proof {
            assert(seq!['.', '.'].len() == 2);
        }
        false
    }
}

/// The extension of a file name.
pub fn name_extension(name: &Vec<char>) -> (ext: Option<Vec<char>>)
    ensures
        ext.is_some() == extension_of(name@).is_some(),
        ext matches Some(e) ==> extension_of(name@) == Some(e@),
{
    if parent_mark(name) {
        return None;
    }
    let mut d: usize = name.len();
    while d > 0 && name[d - 1] != '.'
        invariant
            d <= name.len(),
            forall|k: int| d <= k < name.len() ==> name@[k] != '.',
        decreases d,
    {
        d -= 1;
    }
    if d <= 1 {
        proof {
            assert forall|x: int| !(is_last_dot(name@, x) && x > 0) by {
                if is_last_dot(name@, x) && x > 0 {
                    assert(name@[x] == '.');
                    assert(x >= d);
                }
            }
        }
        return None;
    }
    let dot: usize = d - 1;
    let mut ext: Vec<char> = Vec::new();
    let mut i: usize = d;
    while i < name.len()
        invariant
            d <= i <= name.len(),
            ext@ == name@.subrange(d as int, i as int),
        decreases name.len() - i,
    {
        ext.push(name[i]);
        proof {
            assert(ext@ =~= name@.subrange(d as int, i + 1));
        }
        i += 1;
    }
    proof {
        assert(is_last_dot(name@, dot as int) && dot > 0);
        let c = choose|x: int| is_last_dot(name@, x) && x > 0;
        assert(c == dot) by {
            if c < dot {
                assert(name@[dot as int] == '.');
            } else if c > dot {
                assert(name@[c] == '.');
            }
        }
        assert(ext@ =~= name@.skip(dot + 1));
    }
    Some(ext)
}

impl View for VirtualPath {
    type V = PathView;

    open spec fn view(&self) -> PathView {
        PathView { rooted: self.rooted, parts: names_view(self.parts@) }
    }
}

/// Whether two texts hold the same characters.
pub fn text_eq(a: &Vec<char>, b: &Vec<char>) -> (same: bool)
    ensures
        same == (a@ == b@),
{
    if a.len() != b.len() {
        return false;
    }
    let mut i: usize = 0;
    while i < a.len()
        invariant
            i <= a.len(),
            a.len() == b.len(),
            forall|k: int| 0 <= k < i ==> a@[k] == b@[k],
        decreases a.len() - i,
    {
        if a[i] != b[i] {
            return false;
        }
        i += 1;
    }
    proof {
        assert(a@ =~= b@);
    }
    true
}

/// A fresh copy of a text.
pub fn text_copy(a: &Vec<char>) -> (b: Vec<char>)
    ensures
        b@ == a@,
{
    let mut b: Vec<char> = Vec::new();
    let mut i: usize = 0;
    while i < a.len()
        invariant
            i <= a.len(),
            b@ == a@.take(i as int),
        decreases a.len() - i,
    {
        b.push(a[i]);
        proof {
            assert(b@ =~= a@.take(i + 1));
        }
        i += 1;
    }
    proof {
        assert(a@.take(a.len() as int) =~= a@);
    }
    b
}

impl VirtualPath {
    /// The empty relative path.
    pub fn new() -> (p: VirtualPath)
        ensures
            p@ == (PathView { rooted: false, parts: Seq::empty() }),
    {
        let p = VirtualPath { rooted: false, parts: Vec::new() };
        proof {
            assert(p@.parts =~= Seq::empty());
        }
        p
    }

    /// The path that a text denotes.
    pub fn from_chars(t: &Vec<char>) -> (p: VirtualPath)
        ensures
            p@ == path_of(t@),
    {
        let mut parts: Vec<Vec<char>> = Vec::new();
        let mut cur: Vec<char> = Vec::new();
        let mut i: usize = 0;
        proof {
            assert(t@.skip(0) =~= t@);
            assert(cur@ =~= Seq::<char>::empty());
            assert(names_view(parts@) + segments(t@) =~= segments(t@));
        }
        while i < t.len()
            invariant
                i <= t.len(),
                segments(t@) == names_view(parts@) + split_from(t@.skip(i as int), cur@),
            decreases t.len() - i,
        {
            let c = t[i];
            proof {
                assert(t@.skip(i as int).drop_first() =~= t@.skip(i + 1));
                assert(t@.skip(i as int)[0] == c);
            }
            if c == '/' {
                let ghost before = names_view(parts@);
                let ghost name = cur@;
                let ghost rest = split_from(t@.skip(i + 1), Seq::empty());
                if names_level(&cur) {
                    parts.push(cur);
                    proof {
                        assert(names_view(parts@) =~= before + finished(name));
                    }
                } else {
                    proof {
                        assert(before + finished(name) =~= before);
                    }
                }
                cur = Vec::new();
                proof {
                    assert(before + (finished(name) + rest) =~= (before + finished(name)) + rest);
                }
            } else {
                cur.push(c);
            }
            i += 1;
        }
        let ghost before = names_view(parts@);
        if names_level(&cur) {
            parts.push(cur);
            proof {
                assert(names_view(parts@) =~= before + finished(cur@));
            }
        } else {
            proof {
                assert(before + finished(cur@) =~= before);
            }
        }
        let rooted = t.len() > 0 && t[0] == '/';
        VirtualPath { rooted, parts }
    }

    /// The path that a string denotes.
    pub fn parse(s: &str) -> (p: VirtualPath)
        ensures
            p@ == path_of(s@),
    {
        let t = crate::text::chars_of(s);
        VirtualPath::from_chars(&t)
    }

    /// The text of the path.
    pub fn to_text(&self) -> (t: Vec<char>)
        ensures
            t@ == text_of(self@),
    {
        let mut t: Vec<char> = Vec::new();
        if self.rooted {
            t.push('/');
        }
        let ghost lead = t@;
        let mut i: usize = 0;
        proof {
            assert(lead + joined(self@.parts.take(0)) =~= lead);
        }
        while i < self.parts.len()
            invariant
                i <= self.parts.len(),
                t@ == lead + joined(self@.parts.take(i as int)),
            decreases self.parts.len() - i,
        {
            if i > 0 {
                t.push('/');
            }
            let ghost start = t@;
            let name = &self.parts[i];
            let mut k: usize = 0;
            while k < name.len()
                invariant
                    k <= name.len(),
                    t@ == start + name@.take(k as int),
                decreases name.len() - k,
            {
                t.push(name[k]);
                proof {
                    assert(t@ =~= start + name@.take(k + 1));
                }
                k += 1;
            }
            proof {
                let done = self@.parts.take(i + 1);
                assert(name@.take(name.len() as int) =~= name@);
                assert(done.drop_last() =~= self@.parts.take(i as int));
                assert(done.last() == name@);
                assert(t@ =~= lead + joined(done));
            }
            i += 1;
        }
        proof {
            assert(self@.parts.take(self.parts.len() as int) =~= self@.parts);
            assert(lead =~= if self.rooted {
                seq!['/']
            } else {
                Seq::empty()
            });
            assert(t@ =~= text_of(self@));
        }
        t
    }

    /// The extension of the last name of the path.
    pub fn extension(&self) -> (ext: Option<Vec<char>>)
        ensures
            ext.is_some() == self@.extension().is_some(),
            ext matches Some(e) ==> self@.extension() == Some(e@),
    {
        let n = self.parts.len();
        if n == 0 {
            return None;
        }
        proof {
            assert(self@.parts.last() == self.parts@[n - 1]@);
        }
        name_extension(&self.parts[n - 1])
    }

    /// Whether `self` and `other` are the same path.
    pub fn same_as(&self, other: &VirtualPath) -> (same: bool)
        ensures
            same == (self@ == other@),
    {
        if self.rooted != other.rooted || self.parts.len() != other.parts.len() {
            proof {
                assert(self@.parts.len() == self.parts.len());
                assert(other@.parts.len() == other.parts.len());
            }
            return false;
        }
        let mut i: usize = self.parts.len();
        while i > 0
            invariant
                i <= self.parts.len(),
                self.parts.len() == other.parts.len(),
                forall|k: int| i <= k < self.parts.len() ==> self.parts@[k]@ == other.parts@[k]@,
            decreases i,
        {
            i -= 1;
            if !text_eq(&self.parts[i], &other.parts[i]) {
                proof {
                    assert(self@.parts[i as int] == self.parts@[i as int]@);
                    assert(other@.parts[i as int] == other.parts@[i as int]@);
                }
                return false;
            }
        }
        proof {
            assert(self@.parts =~= other@.parts);
        }
        true
    }

    /// A fresh copy of the path.
    pub fn duplicate(&self) -> (p: VirtualPath)
        ensures
            p@ == self@,
    {
        let mut parts: Vec<Vec<char>> = Vec::new();
        let mut i: usize = 0;
        while i < self.parts.len()
            invariant
                i <= self.parts.len(),
                parts.len() == i,
                forall|k: int| 0 <= k < i ==> parts@[k]@ == self.parts@[k]@,
            decreases self.parts.len() - i,
        {
            parts.push(text_copy(&self.parts[i]));
            i += 1;
        }
        let p = VirtualPath { rooted: self.rooted, parts };
        proof {
            assert(p@.parts =~= self@.parts);
        }
        p
    }

    /// The number of names in the path.
    pub fn depth(&self) -> (n: usize)
        ensures
            n == self@.parts.len(),
    {
        self.parts.len()
    }

    /// The path one level down, at the child called `name`.
    pub fn child(&self, name: &Vec<char>) -> (p: VirtualPath)
        ensures
            p@ == self@.child(name@),
    {
        let mut p = self.duplicate();
        p.parts.push(text_copy(name));
        proof {
            assert(p@.parts =~= self@.parts.push(name@));
        }
        p
    }

    /// The path followed by the names of `rest`, as joining a relative path
    /// onto a container does.
    pub fn join(&self, rest: &VirtualPath) -> (p: VirtualPath)
        ensures
            p@ == self@.join(rest@.parts),
    {
        let mut p = self.duplicate();
        let mut i: usize = 0;
        while i < rest.parts.len()
            invariant
                i <= rest.parts.len(),
                p.rooted == self.rooted,
                p@.parts == self@.parts + rest@.parts.take(i as int),
            decreases rest.parts.len() - i,
        {
            let ghost before = p@.parts;
            p.parts.push(text_copy(&rest.parts[i]));
            proof {
                assert(p@.parts =~= before.push(rest@.parts[i as int]));
                assert(rest@.parts.take(i + 1) =~= rest@.parts.take(i as int).push(
                    rest@.parts[i as int],
                ));
                assert(p@.parts =~= self@.parts + rest@.parts.take(i + 1));
            }
            i += 1;
        }
        proof {
            assert(rest@.parts.take(rest.parts.len() as int) =~= rest@.parts);
        }
        p
    }

    /// The ancestor that keeps the first `n` names.
    pub fn ancestor(&self, n: usize) -> (p: VirtualPath)
        requires
            n <= self@.parts.len(),
        ensures
            p@ == self@.ancestor(n as int),
    {
        let mut parts: Vec<Vec<char>> = Vec::new();
        let mut i: usize = 0;
        while i < n
            invariant
                i <= n <= self.parts.len(),
                parts.len() == i,
                forall|k: int| 0 <= k < i ==> parts@[k]@ == self.parts@[k]@,
            decreases n - i,
        {
            parts.push(text_copy(&self.parts[i]));
            i += 1;
        }
        let p = VirtualPath { rooted: self.rooted, parts };
        proof {
            assert(p@.parts =~= self@.parts.take(n as int));
        }
        p
    }

    /// The relative path made of the names after the first `n`.
    pub fn remainder(&self, n: usize) -> (p: VirtualPath)
        requires
            n <= self@.parts.len(),
        ensures
            p@ == self@.remainder(n as int),
    {
        let mut parts: Vec<Vec<char>> = Vec::new();
        let mut i: usize = n;
        while i < self.parts.len()
            invariant
                n <= i <= self.parts.len(),
                parts.len() == i - n,
                forall|k: int| 0 <= k < i - n ==> parts@[k]@ == self.parts@[k + n]@,
            decreases self.parts.len() - i,
        {
            parts.push(text_copy(&self.parts[i]));
            i += 1;
        }
        let p = VirtualPath { rooted: false, parts };
        proof {
            assert(p@.parts =~= self@.parts.skip(n as int));
        }
        p
    }
}

} // verus!
