//! Lexical paths, resolved without touching the file system. On Windows both
//! `\` and `/` separate names, and a leading drive (`C:`) or UNC / verbatim
//! prefix (`\\server\share`, `\\?\C:`) is split off and kept as it is.
use vstd::prelude::*;

verus! {

/// The operating system whose path rules apply.
#[derive(Clone, Copy, Debug, PartialEq, Eq, Structural)]
pub enum Platform {
    Linux,
    Windows,
    Other,
}

/// `c` separates names on `pl`.
pub open spec fn is_sep(c: char, pl: Platform) -> bool {
    c == '/' || (pl == Platform::Windows && c == '\\')
}

/// The separator written between names on `pl`.
pub open spec fn sep_char(pl: Platform) -> char {
    if pl == Platform::Windows {
        '\\'
    } else {
        '/'
    }
}

/// An ASCII letter, as in a drive name.
pub open spec fn is_letter(c: char) -> bool {
    ('a' <= c && c <= 'z') || ('A' <= c && c <= 'Z')
}

/// The first index at or after `from` that holds a separator, or the length.
pub open spec fn next_sep(s: Seq<char>, from: nat, pl: Platform) -> nat
    decreases s.len() - from,
{
    if from >= s.len() {
        s.len()
    } else if is_sep(s[from as int], pl) {
        from
    } else {
        next_sep(s, from + 1, pl)
    }
}

/// A Windows path that starts with two separators: UNC, verbatim or device.
pub open spec fn is_unc(s: Seq<char>, pl: Platform) -> bool {
    pl == Platform::Windows && s.len() >= 2 && is_sep(s[0], pl) && is_sep(s[1], pl)
}

/// The length of the platform prefix of `s`: on Windows, two separators and
/// the two names after them (`\\server\share`, `\\?\C:`), or a drive letter
/// and colon; elsewhere nothing.
pub open spec fn prefix_len(s: Seq<char>, pl: Platform) -> nat {
    if is_unc(s, pl) {
        let a = next_sep(s, 2, pl);
        if a >= s.len() {
            s.len()
        } else {
            next_sep(s, a + 1, pl)
        }
    } else if pl == Platform::Windows && s.len() >= 2 && is_letter(s[0]) && s[1] == ':' {
        2
    } else {
        0
    }
}

/// The platform prefix of `s`.
pub open spec fn prefix_of(s: Seq<char>, pl: Platform) -> Seq<char> {
    s.take(prefix_len(s, pl) as int)
}

/// What follows the platform prefix of `s`.
pub open spec fn rest_of(s: Seq<char>, pl: Platform) -> Seq<char> {
    s.skip(prefix_len(s, pl) as int)
}

/// After its prefix, `s` starts at a root.
pub open spec fn rooted(s: Seq<char>, pl: Platform) -> bool {
    let r = rest_of(s, pl);
    r.len() > 0 && is_sep(r[0], pl)
}

/// `s` does not depend on a current directory: on Windows it needs a prefix
/// and, but for UNC forms, a root after it; elsewhere a root.
pub open spec fn absolute(s: Seq<char>, pl: Platform) -> bool {
    if pl == Platform::Windows {
        prefix_len(s, pl) > 0 && (is_unc(s, pl) || rooted(s, pl))
    } else {
        rooted(s, pl)
    }
}

/// The pieces of `s` between separators, empty ones included.
pub open spec fn pieces(s: Seq<char>, pl: Platform) -> Seq<Seq<char>>
    decreases s.len(),
{
    if s.len() == 0 {
        seq![Seq::empty()]
    } else {
        let p = pieces(s.drop_last(), pl);
        if is_sep(s.last(), pl) {
            p.push(Seq::empty())
        } else {
            p.update(p.len() - 1, p.last().push(s.last()))
        }
    }
}

/// One piece applied to the stack of names: empty and `.` pieces are dropped,
/// `..` removes the last name if there is one, any other piece is pushed.
pub open spec fn step(stack: Seq<Seq<char>>, piece: Seq<char>) -> Seq<Seq<char>> {
    if piece.len() == 0 || piece == seq!['.'] {
        stack
    } else if piece == seq!['.', '.'] {
        if stack.len() > 0 {
            stack.drop_last()
        } else {
            stack
        }
    } else {
        stack.push(piece)
    }
}

/// The pieces applied from left to right to an empty stack.
pub open spec fn fold_steps(ps: Seq<Seq<char>>) -> Seq<Seq<char>>
    decreases ps.len(),
{
    if ps.len() == 0 {
        Seq::empty()
    } else {
        step(fold_steps(ps.drop_last()), ps.last())
    }
}

/// The names that remain of `s` after its prefix once `.` and `..` are
/// resolved; the prefix itself is never removed.
pub open spec fn normal_names(s: Seq<char>, pl: Platform) -> Seq<Seq<char>> {
    fold_steps(pieces(rest_of(s, pl), pl))
}

/// Names joined by `sep`.
pub open spec fn join_names(names: Seq<Seq<char>>, sep: char) -> Seq<char>
    decreases names.len(),
{
    if names.len() == 0 {
        Seq::empty()
    } else if names.len() == 1 {
        names[0]
    } else {
        join_names(names.drop_last(), sep) + seq![sep] + names.last()
    }
}

/// The text of a path from its prefix, whether it has a root, and its names.
pub open spec fn render(
    prefix: Seq<char>,
    is_rooted: bool,
    names: Seq<Seq<char>>,
    pl: Platform,
) -> Seq<char> {
    prefix + (if is_rooted {
        seq![sep_char(pl)]
    } else {
        Seq::empty()
    }) + join_names(names, sep_char(pl))
}

/// The lexically normalized form of `s`: its prefix kept, its root kept, its
/// names resolved.
pub open spec fn normalized(s: Seq<char>, pl: Platform) -> Seq<char> {
    render(prefix_of(s, pl), rooted(s, pl), normal_names(s, pl), pl)
}

/// `rel` resolved against `base`: a `rel` with a prefix stands alone, a rooted
/// one keeps only the prefix of `base`, any other is appended after a
/// separator.
pub open spec fn joined(base: Seq<char>, rel: Seq<char>, pl: Platform) -> Seq<char> {
    if prefix_len(rel, pl) > 0 {
        rel
    } else if rooted(rel, pl) {
        prefix_of(base, pl) + rel
    } else if base.len() == 0 {
        rel
    } else if is_sep(base.last(), pl) {
        base + rel
    } else {
        base + seq![sep_char(pl)] + rel
    }
}

/// A name of a normal path: not empty, not `.` or `..`, without a separator.
pub open spec fn name_ok(x: Seq<char>, pl: Platform) -> bool {
    &&& x.len() > 0
    &&& x != seq!['.']
    &&& x != seq!['.', '.']
    &&& forall|i: int| 0 <= i < x.len() ==> !is_sep(#[trigger] x[i], pl)
}

/// The views of a list of strings.
pub open spec fn views(v: Seq<String>) -> Seq<Seq<char>> {
    v.map_values(|x: String| x@)
}

/// A path in normal form: its platform prefix, whether a root follows it, and
/// its names in order.
#[derive(Clone, Debug, PartialEq)]
pub struct NormalPath {
    pub platform: Platform,
    pub prefix: String,
    pub rooted: bool,
    pub names: Vec<String>,
}

impl NormalPath {
    pub open spec fn names_view(&self) -> Seq<Seq<char>> {
        views(self.names@)
    }

    /// Every name is a proper name.
    pub open spec fn wf(&self) -> bool {
        forall|i: int|
            0 <= i < self.names@.len() ==> name_ok(#[trigger] self.names_view()[i], self.platform)
    }

    /// The text of this path.
    pub open spec fn text(&self) -> Seq<char> {
        render(self.prefix@, self.rooted, self.names_view(), self.platform)
    }

    /// The text of the path made of the prefix, the root and the first `k` names.
    pub fn render_prefix(&self, k: usize) -> (r: String)
        requires
            k <= self.names@.len(),
        ensures
            r@ == render(self.prefix@, self.rooted, self.names_view().take(k as int), self.platform),
    {
        let sep = separator(self.platform);
        let mut body = String::new();
        let ghost nv = self.names_view();
        let mut i: usize = 0;
        while i < k
            invariant
                i <= k <= self.names@.len(),
                nv == self.names_view(),
                sep@ == seq![sep_char(self.platform)],
                body@ == join_names(nv.take(i as int), sep_char(self.platform)),
            decreases k - i,
        {
            if i > 0 {
                body.append(sep);
            }
            body.append(self.names[i].as_str());
            proof {
                assert(nv.take(i + 1).drop_last() == nv.take(i as int));
                assert(nv[i as int] == self.names@[i as int]@);
                if i == 0 {
                    assert(body@ == nv.take(1)[0]);
                }
            }
            i = i + 1;
        }
        let mut r = self.prefix.clone();
        if self.rooted {
            r.append(sep);
        }
        r.append(body.as_str());
        r
    }

    /// The text of this path.
    pub fn to_text(&self) -> (r: String)
        ensures
            r@ == self.text(),
    {
        let r = self.render_prefix(self.names.len());
        assert(self.names_view().take(self.names@.len() as int) == self.names_view());
        r
    }
}

/// The separator written between names on `pl`.
fn separator(pl: Platform) -> (r: &'static str)
    ensures
        r@ == seq![sep_char(pl)],
{
    proof {
        reveal_strlit("\\");
        reveal_strlit("/");
    }
    if pl == Platform::Windows {
        "\\"
    } else {
        "/"
    }
}

/// Whether `c` separates names on `pl`.
pub fn is_separator(c: char, pl: Platform) -> (r: bool)
    ensures
        r == is_sep(c, pl),
{
    c == '/' || (pl == Platform::Windows && c == '\\')
}

fn find_sep(s: &str, from: usize, pl: Platform) -> (r: usize)
    requires
        from <= s@.len(),
    ensures
        r == next_sep(s@, from as nat, pl),
{
    let n = s.unicode_len();
    let mut i = from;
    while i < n
        invariant
            from <= i <= n == s@.len(),
            next_sep(s@, from as nat, pl) == next_sep(s@, i as nat, pl),
        decreases n - i,
    {
        if is_separator(s.get_char(i), pl) {
            return i;
        }
        i = i + 1;
    }
    i
}

/// The length of the platform prefix of `path`.
pub fn prefix_length(path: &str, pl: Platform) -> (r: usize)
    ensures
        r == prefix_len(path@, pl),
{
    let n = path.unicode_len();
    if pl != Platform::Windows || n < 2 {
        return 0;
    }
    let c0 = path.get_char(0);
    let c1 = path.get_char(1);
    if is_separator(c0, pl) && is_separator(c1, pl) {
        let a = find_sep(path, 2, pl);
        if a >= n {
            n
        } else {
            find_sep(path, a + 1, pl)
        }
    } else if (('a' <= c0 && c0 <= 'z') || ('A' <= c0 && c0 <= 'Z')) && c1 == ':' {
        2
    } else {
        0
    }
}

proof fn lemma_next_sep_bounds(s: Seq<char>, from: nat, pl: Platform)
    ensures
        from <= s.len() ==> from <= next_sep(s, from, pl) <= s.len(),
        from > s.len() ==> next_sep(s, from, pl) == s.len(),
    decreases s.len() - from,
{
    if from < s.len() && !is_sep(s[from as int], pl) {
        lemma_next_sep_bounds(s, from + 1, pl);
    }
}

proof fn lemma_prefix_len_bound(s: Seq<char>, pl: Platform)
    ensures
        prefix_len(s, pl) <= s.len(),
{
    if is_unc(s, pl) {
        lemma_next_sep_bounds(s, 2, pl);
        let a = next_sep(s, 2, pl);
        lemma_next_sep_bounds(s, a + 1, pl);
    }
}

proof fn lemma_pieces_not_empty(s: Seq<char>, pl: Platform)
    ensures
        pieces(s, pl).len() >= 1,
    decreases s.len(),
{
    if s.len() > 0 {
        lemma_pieces_not_empty(s.drop_last(), pl);
    }
}

proof fn lemma_pieces_have_no_separator(s: Seq<char>, pl: Platform)
    ensures
        forall|i: int, j: int|
            0 <= i < pieces(s, pl).len() && 0 <= j < pieces(s, pl)[i].len() ==> !is_sep(
                #[trigger] pieces(s, pl)[i][j],
                pl,
            ),
    decreases s.len(),
{
    if s.len() > 0 {
        lemma_pieces_have_no_separator(s.drop_last(), pl);
        lemma_pieces_not_empty(s.drop_last(), pl);
        let p = pieces(s.drop_last(), pl);
        if !is_sep(s.last(), pl) {
            let q = p.last().push(s.last());
            let r = pieces(s, pl);
            assert forall|i: int, j: int| 0 <= i < r.len() && 0 <= j < r[i].len() implies !is_sep(
                #[trigger] r[i][j],
                pl,
            ) by {
                if i < p.len() - 1 {
                    assert(r[i] == p[i]);
                } else if j < p.last().len() {
                    assert(r[i][j] == p[p.len() - 1][j]);
                }
            }
        } else {
            let r = pieces(s, pl);
            assert forall|i: int, j: int| 0 <= i < r.len() && 0 <= j < r[i].len() implies !is_sep(
                #[trigger] r[i][j],
                pl,
            ) by {
                assert(r[i] == p[i]);
            }
        }
    }
}

proof fn lemma_fold_steps_names_ok(ps: Seq<Seq<char>>, pl: Platform)
    requires
        forall|i: int, j: int| 0 <= i < ps.len() && 0 <= j < ps[i].len() ==> !is_sep(#[trigger] ps[i][j], pl),
    ensures
        forall|i: int| 0 <= i < fold_steps(ps).len() ==> name_ok(#[trigger] fold_steps(ps)[i], pl),
    decreases ps.len(),
{
    if ps.len() > 0 {
        let init = ps.drop_last();
        assert forall|i: int, j: int| 0 <= i < init.len() && 0 <= j < init[i].len() implies !is_sep(
            #[trigger] init[i][j],
            pl,
        ) by {
            assert(init[i] == ps[i]);
        }
        lemma_fold_steps_names_ok(init, pl);
        let stack = fold_steps(init);
        let last = ps.last();
        assert forall|j: int| 0 <= j < last.len() implies !is_sep(#[trigger] last[j], pl) by {
            assert(last[j] == ps[ps.len() - 1][j]);
        }
        let r = step(stack, last);
        assert(r == fold_steps(ps));
        assert forall|i: int| 0 <= i < r.len() implies name_ok(#[trigger] r[i], pl) by {
            if i < stack.len() {
                assert(r[i] == stack[i]);
            } else {
                assert(r[i] == last);
            }
        }
    }
}

/// The pieces of `path` between separators.
fn split_pieces(path: &str, pl: Platform) -> (r: Vec<String>)
    ensures
        views(r@) == pieces(path@, pl),
{
    let n = path.unicode_len();
    let mut out: Vec<String> = Vec::new();
    let mut start: usize = 0;
    let mut i: usize = 0;
    proof {
        assert(views(out@) == Seq::<Seq<char>>::empty());
        assert(path@.take(0) == Seq::<char>::empty());
        assert(path@.subrange(0, 0) == Seq::<char>::empty());
    }
    while i < n
        invariant
            n == path@.len(),
            start <= i <= n,
            views(out@).push(path@.subrange(start as int, i as int)) == pieces(
                path@.take(i as int),
                pl,
            ),
        decreases n - i,
    {
        let c = path.get_char(i);
        proof {
            assert(path@.take(i + 1).drop_last() == path@.take(i as int));
            lemma_pieces_not_empty(path@.take(i as int), pl);
        }
        if is_separator(c, pl) {
            let piece = String::from_str(path.substring_char(start, i));
            let ghost before = views(out@);
            out.push(piece);
            proof {
                assert(views(out@) == before.push(path@.subrange(start as int, i as int)));
                assert(path@.subrange(i + 1, i + 1) == Seq::<char>::empty());
            }
            start = i + 1;
        } else {
            proof {
                assert(path@.subrange(start as int, i + 1) == path@.subrange(
                    start as int,
                    i as int,
                ).push(c));
                let p = pieces(path@.take(i as int), pl);
                assert(views(out@).push(path@.subrange(start as int, i + 1)) == p.update(
                    p.len() - 1,
                    p.last().push(c),
                ));
            }
        }
        i = i + 1;
    }
    let last = String::from_str(path.substring_char(start, n));
    out.push(last);
    proof {
        assert(path@.take(n as int) == path@);
    }
    assert(views(out@) == pieces(path@, pl));
    out
}

fn is_dot(piece: &String) -> (r: bool)
    ensures
        r == (piece@ == seq!['.']),
{
    if piece.as_str().unicode_len() == 1 {
        let c = piece.as_str().get_char(0);
        assert(c == '.' ==> piece@ == seq!['.']);
        c == '.'
    } else {
        false
    }
}

fn is_dot_dot(piece: &String) -> (r: bool)
    ensures
        r == (piece@ == seq!['.', '.']),
{
    if piece.as_str().unicode_len() == 2 {
        let a = piece.as_str().get_char(0);
        let b = piece.as_str().get_char(1);
        assert(a == '.' && b == '.' ==> piece@ == seq!['.', '.']);
        a == '.' && b == '.'
    } else {
        false
    }
}

/// Whether a root follows the platform prefix of `path`.
pub fn has_root(path: &str, pl: Platform) -> (r: bool)
    ensures
        r == rooted(path@, pl),
{
    let p = prefix_length(path, pl);
    proof {
        lemma_prefix_len_bound(path@, pl);
    }
    p < path.unicode_len() && is_separator(path.get_char(p), pl)
}

/// Whether `path` does not depend on a current directory.
pub fn is_absolute(path: &str, pl: Platform) -> (r: bool)
    ensures
        r == absolute(path@, pl),
{
    let p = prefix_length(path, pl);
    let root = has_root(path, pl);
    if pl == Platform::Windows {
        let unc = path.unicode_len() >= 2 && is_separator(path.get_char(0), pl) && is_separator(
            path.get_char(1),
            pl,
        );
        p > 0 && (unc || root)
    } else {
        root
    }
}

/// The normal form of `path`: its prefix kept, `.` pieces dropped, each `..`
/// removing the name before it (never the prefix or the root), repeated
/// separators merged.
pub fn normal_form(path: &str, pl: Platform) -> (r: NormalPath)
    ensures
        r.platform == pl,
        r.prefix@ == prefix_of(path@, pl),
        r.rooted == rooted(path@, pl),
        r.names_view() == normal_names(path@, pl),
        r.wf(),
{
    let p = prefix_length(path, pl);
    proof {
        lemma_prefix_len_bound(path@, pl);
    }
    let n = path.unicode_len();
    let prefix = String::from_str(path.substring_char(0, p));
    let rest = path.substring_char(p, n);
    assert(prefix@ == prefix_of(path@, pl));
    assert(rest@ == rest_of(path@, pl));
    let rooted = has_root(path, pl);
    let ps = split_pieces(rest, pl);
    let ghost pv = views(ps@);
    let mut names: Vec<String> = Vec::new();
    let mut i: usize = 0;
    while i < ps.len()
        invariant
            i <= ps@.len(),
            pv == views(ps@),
            pv == pieces(rest@, pl),
            views(names@) == fold_steps(pv.take(i as int)),
        decreases ps.len() - i,
    {
        let piece = &ps[i];
        let ghost before = views(names@);
        proof {
            assert(pv.take(i + 1).drop_last() == pv.take(i as int));
            assert(pv[i as int] == piece@);
        }
        if piece.as_str().unicode_len() == 0 || is_dot(piece) {
        } else if is_dot_dot(piece) {
            if names.len() > 0 {
                names.pop();
                assert(views(names@) == before.drop_last());
            }
        } else {
            names.push(piece.clone());
            assert(views(names@) == before.push(piece@));
        }
        i = i + 1;
    }
    assert(pv.take(ps@.len() as int) == pv);
    proof {
        lemma_pieces_have_no_separator(rest@, pl);
        lemma_fold_steps_names_ok(pv, pl);
    }
    let r = NormalPath { platform: pl, prefix, rooted, names };
    assert(r.names_view() == normal_names(path@, pl));
    r
}

/// Normalizing keeps the platform prefix as it is, and a root after it exactly
/// when the path had one.
pub proof fn lemma_normalized_keeps_prefix_and_root(s: Seq<char>, pl: Platform)
    ensures
        normalized(s, pl).take(prefix_len(s, pl) as int) == prefix_of(s, pl),
        rooted(s, pl) ==> normalized(s, pl).len() > prefix_len(s, pl) && normalized(s, pl)[prefix_len(
            s,
            pl,
        ) as int] == sep_char(pl),
        !rooted(s, pl) ==> normalized(s, pl) == prefix_of(s, pl) + join_names(
            normal_names(s, pl),
            sep_char(pl),
        ),
{
    lemma_prefix_len_bound(s, pl);
    let n = normalized(s, pl);
    let p = prefix_of(s, pl);
    assert(n.take(p.len() as int) == p);
    if rooted(s, pl) {
        assert(n[p.len() as int] == sep_char(pl));
    } else {
        assert(n == p + join_names(normal_names(s, pl), sep_char(pl)));
    }
}

/// The lexically normalized form of `path`.
pub fn normalize_p(path: &str, pl: Platform) -> (r: String)
    ensures
        r@ == normalized(path@, pl),
        r@.take(prefix_len(path@, pl) as int) == prefix_of(path@, pl),
{
    proof {
        lemma_prefix_len_bound(path@, pl);
    }
    let r = normal_form(path, pl).to_text();
    assert(r@.take(prefix_len(path@, pl) as int) == prefix_of(path@, pl));
    r
}

/// `rel` resolved against `base`.
pub fn join_path(base: &str, rel: &str, pl: Platform) -> (r: String)
    ensures
        r@ == joined(base@, rel@, pl),
{
    let n = base.unicode_len();
    if prefix_length(rel, pl) > 0 {
        String::from_str(rel)
    } else if has_root(rel, pl) {
        let p = prefix_length(base, pl);
        proof {
            lemma_prefix_len_bound(base@, pl);
        }
        let mut r = String::from_str(base.substring_char(0, p));
        r.append(rel);
        r
    } else if n == 0 {
        String::from_str(rel)
    } else {
        let mut r = String::from_str(base);
        if !is_separator(base.get_char(n - 1), pl) {
            r.append(separator(pl));
        }
        r.append(rel);
        r
    }
}

} // verus!
