//! Provider-neutral remote paths: relative, `/`-separated, without empty,
//! `.` or `..` components.
use vstd::prelude::*;
use crate::error::BifrostError;
use crate::text::{chars_of, string_from_chars};

verus! {

broadcast use vstd::string::group_string_axioms;

/// Why a path was refused.
#[derive(Debug, Clone, Copy, PartialEq, Eq)]
pub enum PathIssue {
    Absolute,
    ParentTraversal,
    EmptyComponent,
}

/// `s` with every `\` turned into `/`.
pub open spec fn normalize_separators(s: Seq<char>) -> Seq<char> {
    Seq::new(s.len(), |i: int| if s[i] == '\\' { '/' } else { s[i] })
}

/// The pieces of `s` between `/` separators (always at least one piece).
pub open spec fn split_components(s: Seq<char>) -> Seq<Seq<char>>
    decreases s.len(),
{
    if s.len() == 0 {
        seq![Seq::<char>::empty()]
    } else {
        let prev = split_components(s.drop_last());
        if s.last() == '/' {
            prev.push(Seq::<char>::empty())
        } else {
            prev.update(prev.len() - 1, prev.last().push(s.last()))
        }
    }
}

/// A component that parsing drops: empty or `.`.
pub open spec fn is_skipped_component(c: Seq<char>) -> bool {
    c.len() == 0 || c == seq!['.']
}

/// The `..` component.
pub open spec fn is_parent_component(c: Seq<char>) -> bool {
    c == seq!['.', '.']
}

/// The components that parsing keeps, in order.
pub open spec fn kept_components(cs: Seq<Seq<char>>) -> Seq<Seq<char>>
    decreases cs.len(),
{
    if cs.len() == 0 {
        Seq::empty()
    } else {
        let rest = kept_components(cs.drop_last());
        if is_skipped_component(cs.last()) {
            rest
        } else {
            rest.push(cs.last())
        }
    }
}

/// The components joined by `/`.
pub open spec fn join_components(cs: Seq<Seq<char>>) -> Seq<char>
    decreases cs.len(),
{
    if cs.len() == 0 {
        Seq::empty()
    } else if cs.len() == 1 {
        cs[0]
    } else {
        join_components(cs.drop_last()) + seq!['/'] + cs.last()
    }
}

/// A normalized path that starts at a root or names a drive or scheme.
pub open spec fn is_absolute_spelling(n: Seq<char>) -> bool {
    (n.len() > 0 && n[0] == '/') || n.contains(':')
}

/// What parsing `value` gives: the normalized path, or why it is refused.
pub open spec fn parse_outcome(value: Seq<char>) -> Result<Seq<char>, PathIssue> {
    let n = normalize_separators(value);
    if is_absolute_spelling(n) {
        Err(PathIssue::Absolute)
    } else if split_components(n).contains(seq!['.', '.']) {
        Err(PathIssue::ParentTraversal)
    } else {
        Ok(join_components(kept_components(split_components(n))))
    }
}

/// The text of the error that parsing a refused path reports.
pub open spec fn path_issue_text(value: Seq<char>, issue: PathIssue) -> Seq<char> {
    "invalid remote path: "@ + match issue {
        PathIssue::Absolute => "absolute path: "@,
        _ => "parent traversal: "@,
    } + value
}

/// The error that parsing `value` reports for `issue`.
pub open spec fn parse_error_matches(value: Seq<char>, issue: PathIssue, error: BifrostError) -> bool {
    match issue {
        PathIssue::Absolute => error matches BifrostError::InvalidPath(m) && m@ == "absolute path: "@ + value,
        _ => error matches BifrostError::InvalidPath(m) && m@ == "parent traversal: "@ + value,
    }
}

/// A relative, normalized remote path. The empty path is the root.
#[derive(Debug, Clone)]
pub struct RemotePath(String);

impl View for RemotePath {
    type V = Seq<char>;

    open spec fn view(&self) -> Seq<char> {
        self.spec_text()
    }
}

impl RemotePath {
    /// The characters of the path.
    pub closed spec fn spec_text(&self) -> Seq<char> {
        self.0@
    }

    /// The root path (empty).
    pub fn root() -> (p: RemotePath)
        ensures
            p@ == Seq::<char>::empty(),
    {
        RemotePath(String::new())
    }

    /// Parses `value`: `\` counts as `/`, empty and `.` components are dropped,
    /// and absolute spellings and `..` components are refused.
    pub fn parse(value: &str) -> (r: Result<RemotePath, BifrostError>)
        ensures
            match parse_outcome(value@) {
                Ok(p) => r matches Ok(path) && path@ == p,
                Err(issue) => r matches Err(e) && parse_error_matches(value@, issue, e),
            },
    {
        let chars = chars_of(value);
        let len = chars.len();
        let mut n: Vec<char> = Vec::new();
        let mut has_colon = false;
        for i in 0..len
            invariant
                len == chars@.len(),
                n@ == normalize_separators(chars@).take(i as int),
                has_colon == n@.contains(':'),
        {
            let c = chars[i];
            let m = if c == '\\' { '/' } else { c };
            proof {
                assert(normalize_separators(chars@).take(i + 1) == n@.push(m));
                if m == ':' {
                    assert(n@.push(m)[i as int] == ':');
                }
                if !has_colon && n@.push(m).contains(':') {
                    let k = choose|k: int| 0 <= k < n@.push(m).len() && n@.push(m)[k] == ':';
                    if k < i {
                        assert(n@[k] == ':');
                    }
                }
            }
            n.push(m);
            if m == ':' {
                has_colon = true;
            }
        }
        proof {
            assert(normalize_separators(chars@).take(len as int) == normalize_separators(chars@));
        }
        if (len > 0 && n[0] == '/') || has_colon {
            let mut message = String::from_str("absolute path: ");
            message.append(value);
            return Err(BifrostError::InvalidPath(message));
        }
        let (out, saw_parent) = Self::joined_components(n.as_slice());
        if saw_parent {
            let mut message = String::from_str("parent traversal: ");
            message.append(value);
            return Err(BifrostError::InvalidPath(message));
        }
        Ok(RemotePath(string_from_chars(out.as_slice())))
    }

    /// The components of `n` between `/` separators with the empty and `.`
    /// ones dropped, joined by `/`; and whether a `..` component was met.
    pub fn joined_components(n: &[char]) -> (r: (Vec<char>, bool))
        ensures
            r.0@ == join_components(kept_components(split_components(n@))),
            r.1 == split_components(n@).contains(seq!['.', '.']),
    {
        let ghost norm = n@;
        let len = n.len();
        let mut out: Vec<char> = Vec::new();
        let mut cur: Vec<char> = Vec::new();
        let mut saw_parent = false;
        let ghost mut done: Seq<Seq<char>> = Seq::empty();
        for i in 0..len
            invariant
                len == norm.len(),
                n@ == norm,
                split_components(norm.take(i as int)) == done.push(cur@),
                out@ == join_components(kept_components(done)),
                saw_parent == done.contains(seq!['.', '.']),
        {
            let c = n[i];
            proof {
                assert(norm.take(i + 1).drop_last() == norm.take(i as int));
                assert(norm.take(i + 1).last() == c);
            }
            if c == '/' {
                let ghost old_done = done;
                let ghost finished = cur@;
                Self::finish_component(&mut out, &cur, &mut saw_parent, Ghost(old_done));
                proof {
                    done = old_done.push(finished);
                }
                cur = Vec::new();
                proof {
                    assert(split_components(norm.take(i + 1)) == done.push(cur@));
                }
            } else {
                cur.push(c);
                proof {
                    let prev = done.push(cur@.drop_last());
                    assert(cur@.drop_last() =~= split_components(norm.take(i as int)).last());
                    assert(prev.update(prev.len() - 1, prev.last().push(c)) =~= done.push(cur@));
                }
            }
        }
        proof {
            assert(norm.take(len as int) == norm);
        }
        let ghost old_done = done;
        let ghost finished = cur@;
        Self::finish_component(&mut out, &cur, &mut saw_parent, Ghost(old_done));
        proof {
            done = old_done.push(finished);
            assert(split_components(norm) == done);
        }
        (out, saw_parent)
    }

    /// Adds one finished component to the joined output.
    fn finish_component(out: &mut Vec<char>, cur: &Vec<char>, saw_parent: &mut bool, Ghost(done): Ghost<Seq<Seq<char>>>)
        requires
            old(out)@ == join_components(kept_components(done)),
            *old(saw_parent) == done.contains(seq!['.', '.']),
        ensures
            final(out)@ == join_components(kept_components(done.push(cur@))),
            *final(saw_parent) == done.push(cur@).contains(seq!['.', '.']),
    {
        let ghost d2 = done.push(cur@);
        proof {
            assert(d2.drop_last() == done);
            assert(d2.last() == cur@);
        }
        let is_dot = cur.len() == 1 && cur[0] == '.';
        let is_dotdot = cur.len() == 2 && cur[0] == '.' && cur[1] == '.';
        proof {
            if is_dot {
                assert(cur@ =~= seq!['.']);
            }
            if cur@ == seq!['.'] {
                assert(cur@[0] == '.');
            }
            if is_dotdot {
                assert(cur@ =~= seq!['.', '.']);
            }
            if cur@ == seq!['.', '.'] {
                assert(cur@[0] == '.' && cur@[1] == '.');
            }
            if d2.contains(seq!['.', '.']) && !done.contains(seq!['.', '.']) {
                let k = choose|k: int| 0 <= k < d2.len() && d2[k] == seq!['.', '.'];
                if k < done.len() {
                    assert(done[k] == d2[k]);
                }
            }
            if done.contains(seq!['.', '.']) {
                let k = choose|k: int| 0 <= k < done.len() && done[k] == seq!['.', '.'];
                assert(d2[k] == done[k]);
            }
            if is_dotdot {
                assert(d2[done.len() as int] == seq!['.', '.']);
            }
        }
        if is_dotdot {
            *saw_parent = true;
        }
        if cur.len() == 0 || is_dot {
            return;
        }
        let ghost kept = kept_components(done);
        proof {
            assert(kept_components(d2) == kept.push(cur@));
            assert(kept.push(cur@).drop_last() == kept);
        }
        if out.len() > 0 {
            out.push('/');
        } else {
            proof {
                if kept.len() > 0 {
                    Self::lemma_kept_not_skipped(done);
                    Self::lemma_join_nonempty(kept);
                }
            }
        }
        let n = cur.len();
        let ghost start = out@;
        for j in 0..n
            invariant
                n == cur@.len(),
                out@ == start + cur@.take(j as int),
        {
            out.push(cur[j]);
            proof {
                assert(cur@.take(j + 1) == cur@.take(j as int).push(cur@[j as int]));
            }
        }
        proof {
            assert(cur@.take(n as int) == cur@);
            if kept.len() > 0 {
                Self::lemma_kept_not_skipped(done);
                Self::lemma_join_nonempty(kept);
            }
        }
    }

    /// No kept component is skipped.
    proof fn lemma_kept_not_skipped(cs: Seq<Seq<char>>)
        ensures
            forall|i: int| 0 <= i < kept_components(cs).len() ==> !is_skipped_component(#[trigger] kept_components(cs)[i]),
        decreases cs.len(),
    {
        if cs.len() > 0 {
            Self::lemma_kept_not_skipped(cs.drop_last());
            let rest = kept_components(cs.drop_last());
            if !is_skipped_component(cs.last()) {
                assert forall|i: int| 0 <= i < rest.len() implies rest.push(cs.last())[i] == rest[i] by {}
            }
        }
    }

    /// A join of components that are all non-empty is non-empty.
    proof fn lemma_join_nonempty(cs: Seq<Seq<char>>)
        requires
            cs.len() > 0,
            forall|i: int| 0 <= i < cs.len() ==> cs[i].len() > 0,
        ensures
            join_components(cs).len() > 0,
        decreases cs.len(),
    {
        if cs.len() > 1 {
            Self::lemma_join_nonempty(cs.drop_last());
        }
    }

    /// A copy of this path.
    pub fn duplicate(&self) -> (p: RemotePath)
        ensures
            p@ == self@,
    {
        RemotePath(self.0.clone())
    }

    /// The path as text.
    pub fn as_str(&self) -> (s: &str)
        ensures
            s@ == self@,
    {
        self.0.as_str()
    }

    /// The path of the child `name`: `name` is joined to this path with `/` and
    /// the result is parsed again.
    pub fn join(&self, name: &str) -> (r: Result<RemotePath, BifrostError>)
        ensures
            ({
                let candidate = if self@.len() == 0 { name@ } else { self@ + seq!['/'] + name@ };
                match parse_outcome(candidate) {
                    Ok(p) => r matches Ok(path) && path@ == p,
                    Err(issue) => r matches Err(e) && parse_error_matches(candidate, issue, e),
                }
            }),
    {
        if self.0.as_str().is_empty() {
            Self::parse(name)
        } else {
            let mut candidate = self.0.clone();
            candidate.append("/");
            candidate.append(name);
            proof {
                reveal_strlit("/");
                assert(candidate@ == self@ + seq!['/'] + name@);
            }
            Self::parse(candidate.as_str())
        }
    }
}

/// Every piece of a split is free of `/` and made of characters of the input.
proof fn lemma_split_chars(s: Seq<char>)
    ensures
        split_components(s).len() >= 1,
        forall|i: int, k: int|
            0 <= i < split_components(s).len() && 0 <= k < split_components(s)[i].len() ==> {
                &&& #[trigger] split_components(s)[i][k] != '/'
                &&& s.contains(split_components(s)[i][k])
            },
    decreases s.len(),
{
    if s.len() > 0 {
        let d = s.drop_last();
        lemma_split_chars(d);
        let prev = split_components(d);
        let cur = split_components(s);
        assert forall|i: int, k: int|
            0 <= i < cur.len() && 0 <= k < cur[i].len() implies {
                &&& #[trigger] cur[i][k] != '/'
                &&& s.contains(cur[i][k])
            } by {
            if i < prev.len() && !(i == prev.len() - 1 && s.last() != '/') {
                assert(cur[i] == prev[i]);
                assert(d.contains(prev[i][k]));
                let j = choose|j: int| 0 <= j < d.len() && d[j] == prev[i][k];
                assert(s[j] == d[j]);
            } else if i == prev.len() - 1 && s.last() != '/' {
                if k < prev[i].len() {
                    assert(cur[i][k] == prev[i][k]);
                    assert(d.contains(prev[i][k]));
                    let j = choose|j: int| 0 <= j < d.len() && d[j] == prev[i][k];
                    assert(s[j] == d[j]);
                } else {
                    assert(cur[i][k] == s.last());
                    assert(s[s.len() - 1] == s.last());
                }
            }
        }
    }
}

/// Every kept component is one of the input components.
proof fn lemma_kept_subset(cs: Seq<Seq<char>>)
    ensures
        forall|i: int| 0 <= i < kept_components(cs).len() ==> cs.contains(#[trigger] kept_components(cs)[i]),
    decreases cs.len(),
{
    if cs.len() > 0 {
        let d = cs.drop_last();
        lemma_kept_subset(d);
        let rest = kept_components(d);
        assert forall|i: int| 0 <= i < kept_components(cs).len() implies cs.contains(#[trigger] kept_components(cs)[i]) by {
            if i < rest.len() {
                assert(kept_components(cs)[i] == rest[i]);
                let j = choose|j: int| 0 <= j < d.len() && d[j] == rest[i];
                assert(cs[j] == d[j]);
            } else {
                assert(cs[cs.len() - 1] == cs.last());
            }
        }
    }
}

/// A join of components lacking `ch` (other than `/`) lacks `ch`.
proof fn lemma_join_lacks(cs: Seq<Seq<char>>, ch: char)
    requires
        ch != '/',
        forall|i: int| 0 <= i < cs.len() ==> !(#[trigger] cs[i]).contains(ch),
    ensures
        !join_components(cs).contains(ch),
    decreases cs.len(),
{
    if cs.len() > 1 {
        let d = cs.drop_last();
        lemma_join_lacks(d, ch);
        let j = join_components(d) + seq!['/'] + cs.last();
        assert(!cs[cs.len() - 1].contains(ch));
        if j.contains(ch) {
            let k = choose|k: int| 0 <= k < j.len() && j[k] == ch;
            let a = join_components(d).len();
            if k < a {
                assert(join_components(d)[k] == ch);
            } else if k > a {
                assert(cs.last()[k - a - 1] == ch);
            }
        }
    } else if cs.len() == 1 {
        assert(!cs[0].contains(ch));
    }
}

/// A join starts with the first character of its first component.
proof fn lemma_join_first(cs: Seq<Seq<char>>)
    requires
        cs.len() > 0,
        cs[0].len() > 0,
    ensures
        join_components(cs).len() > 0,
        join_components(cs)[0] == cs[0][0],
    decreases cs.len(),
{
    if cs.len() > 1 {
        let d = cs.drop_last();
        assert(d[0] == cs[0]);
        lemma_join_first(d);
    }
}

/// Splitting text without `/` gives the text itself.
proof fn lemma_split_no_sep(c: Seq<char>)
    requires
        !c.contains('/'),
    ensures
        split_components(c) == seq![c],
    decreases c.len(),
{
    if c.len() == 0 {
        assert(c =~= Seq::<char>::empty());
    } else {
        let d = c.drop_last();
        assert(!d.contains('/')) by {
            if d.contains('/') {
                let k = choose|k: int| 0 <= k < d.len() && d[k] == '/';
                assert(c[k] == '/');
            }
        }
        lemma_split_no_sep(d);
        assert(c[c.len() - 1] != '/');
        assert(d.push(c.last()) =~= c);
        assert(seq![d].update(0, d.push(c.last())) =~= seq![c]);
    }
}

/// Splitting `x/y`, where `y` has no `/`, splits `x` and adds `y`.
proof fn lemma_split_append(x: Seq<char>, y: Seq<char>)
    requires
        !y.contains('/'),
    ensures
        split_components(x + seq!['/'] + y) == split_components(x).push(y),
    decreases y.len(),
{
    let s = x + seq!['/'] + y;
    if y.len() == 0 {
        assert(y =~= Seq::<char>::empty());
        assert(s =~= x.push('/'));
        assert(s.drop_last() == x);
    } else {
        let yd = y.drop_last();
        assert(!yd.contains('/')) by {
            if yd.contains('/') {
                let k = choose|k: int| 0 <= k < yd.len() && yd[k] == '/';
                assert(y[k] == '/');
            }
        }
        lemma_split_append(x, yd);
        assert(s.drop_last() == x + seq!['/'] + yd);
        assert(s.last() == y[y.len() - 1]);
        let prev = split_components(x).push(yd);
        assert(yd.push(y.last()) =~= y);
        assert(prev.last() == yd);
        assert(prev.update(prev.len() - 1, prev.last().push(s.last())) =~= split_components(x).push(y));
    }
}

/// Splitting a join of `/`-free components gives the components back.
proof fn lemma_split_join(cs: Seq<Seq<char>>)
    requires
        cs.len() > 0,
        forall|i: int| 0 <= i < cs.len() ==> !(#[trigger] cs[i]).contains('/'),
    ensures
        split_components(join_components(cs)) == cs,
    decreases cs.len(),
{
    if cs.len() == 1 {
        lemma_split_no_sep(cs[0]);
        assert(seq![cs[0]] =~= cs);
    } else {
        let d = cs.drop_last();
        lemma_split_join(d);
        assert(!cs[cs.len() - 1].contains('/'));
        lemma_split_append(join_components(d), cs.last());
        assert(d.push(cs.last()) =~= cs);
    }
}

/// Keeping components that are all kept changes nothing.
proof fn lemma_kept_all(cs: Seq<Seq<char>>)
    requires
        forall|i: int| 0 <= i < cs.len() ==> !is_skipped_component(#[trigger] cs[i]),
    ensures
        kept_components(cs) == cs,
    decreases cs.len(),
{
    if cs.len() > 0 {
        let d = cs.drop_last();
        assert forall|i: int| 0 <= i < d.len() implies !is_skipped_component(#[trigger] d[i]) by {
            assert(d[i] == cs[i]);
        }
        lemma_kept_all(d);
        assert(!is_skipped_component(cs[cs.len() - 1]));
        assert(d.push(cs.last()) =~= cs);
    }
}

/// Text without `\` is already normalized.
proof fn lemma_normalize_noop(s: Seq<char>)
    requires
        !s.contains('\\'),
    ensures
        normalize_separators(s) == s,
{
    assert forall|i: int| 0 <= i < s.len() implies normalize_separators(s)[i] == s[i] by {
        if s[i] == '\\' {
            assert(s.contains('\\'));
        }
    }
    assert(normalize_separators(s) =~= s);
}

/// A single component without `/`, `\` or `:`, other than `.` and `..`,
/// parses to itself.
pub proof fn lemma_plain_component_parses(c: Seq<char>)
    requires
        c.len() > 0,
        !c.contains('/'),
        !c.contains('\\'),
        !c.contains(':'),
        c != seq!['.'],
        c != seq!['.', '.'],
    ensures
        parse_outcome(c) == Ok::<Seq<char>, PathIssue>(c),
{
    lemma_normalize_noop(c);
    lemma_split_no_sep(c);
    assert(!seq![c].contains(seq!['.', '.'])) by {
        if seq![c].contains(seq!['.', '.']) {
            let k = choose|k: int| 0 <= k < 1 && seq![c][k] == seq!['.', '.'];
            assert(seq![c][k] == c);
        }
    }
    assert(!is_skipped_component(c));
    lemma_kept_all(seq![c]);
    assert(c[0] != '/') by {
        if c[0] == '/' {
            assert(c.contains('/'));
        }
    }
}

/// What a successful parse gives is a normal path: it has no `\`, no `:`, does
/// not start with `/`, and each of its components is non-empty and neither `.`
/// nor `..`; and parsing it again gives it back unchanged.
pub proof fn lemma_parse_is_idempotent(value: Seq<char>)
    requires
        parse_outcome(value) is Ok,
    ensures
        ({
            let p = parse_outcome(value)->Ok_0;
            &&& !p.contains('\\')
            &&& !p.contains(':')
            &&& !(p.len() > 0 && p[0] == '/')
            &&& p.len() > 0 ==> forall|i: int| 0 <= i < split_components(p).len() ==> {
                &&& !is_skipped_component(#[trigger] split_components(p)[i])
                &&& !is_parent_component(split_components(p)[i])
            }
            &&& parse_outcome(p) == Ok::<Seq<char>, PathIssue>(p)
        }),
{
    let n = normalize_separators(value);
    let parts = split_components(n);
    let kept = kept_components(parts);
    let p = join_components(kept);
    lemma_split_chars(n);
    lemma_kept_subset(parts);
    RemotePath::lemma_kept_not_skipped(parts);
    assert(!n.contains(':'));
    assert(!n.contains('\\')) by {
        if n.contains('\\') {
            let k = choose|k: int| 0 <= k < n.len() && n[k] == '\\';
            assert(n[k] == if value[k] == '\\' { '/' } else { value[k] });
        }
    }
    assert forall|i: int| 0 <= i < kept.len() implies {
        &&& !(#[trigger] kept[i]).contains('/')
        &&& !kept[i].contains(':')
        &&& !kept[i].contains('\\')
        &&& !is_parent_component(kept[i])
    } by {
        assert(parts.contains(kept[i]));
        let j = choose|j: int| 0 <= j < parts.len() && parts[j] == kept[i];
        if kept[i].contains('/') || kept[i].contains(':') || kept[i].contains('\\') {
            let k = choose|k: int| 0 <= k < kept[i].len() && (kept[i][k] == '/' || kept[i][k] == ':' || kept[i][k] == '\\');
            assert(parts[j][k] == kept[i][k]);
            assert(n.contains(parts[j][k]));
        }
        if is_parent_component(kept[i]) {
            assert(parts.contains(seq!['.', '.']));
        }
    }
    lemma_join_lacks(kept, ':');
    lemma_join_lacks(kept, '\\');
    lemma_normalize_noop(p);
    if kept.len() == 0 {
        assert(p =~= Seq::<char>::empty());
        assert(split_components(p) == seq![Seq::<char>::empty()]);
        assert(kept_components(split_components(p)) =~= Seq::<Seq<char>>::empty()) by {
            let sp = split_components(p);
            assert(sp.drop_last() =~= Seq::<Seq<char>>::empty());
            assert(sp.last() == Seq::<char>::empty());
            assert(is_skipped_component(sp.last()));
            assert(kept_components(sp.drop_last()) == Seq::<Seq<char>>::empty());
        }
        assert(!split_components(p).contains(seq!['.', '.'])) by {
            if split_components(p).contains(seq!['.', '.']) {
                let k = choose|k: int| 0 <= k < split_components(p).len() && split_components(p)[k] == seq!['.', '.'];
                assert(split_components(p)[k].len() == 0);
            }
        }
    } else {
        assert(kept[0].len() > 0);
        lemma_join_first(kept);
        assert(kept[0][0] != '/');
        lemma_split_join(kept);
        lemma_kept_all(kept);
        assert(!kept.contains(seq!['.', '.'])) by {
            if kept.contains(seq!['.', '.']) {
                let k = choose|k: int| 0 <= k < kept.len() && kept[k] == seq!['.', '.'];
                assert(is_parent_component(kept[k]));
            }
        }
    }
}

/// Splitting `x/y` splits `x` and `y` and puts the pieces together.
proof fn lemma_split_concat(x: Seq<char>, y: Seq<char>)
    ensures
        split_components(x + seq!['/'] + y) == split_components(x) + split_components(y),
    decreases y.len(),
{
    let s = x + seq!['/'] + y;
    if y.len() == 0 {
        assert(s =~= x.push('/'));
        assert(s.drop_last() =~= x);
        assert(split_components(x).push(Seq::<char>::empty()) =~= split_components(x) + seq![Seq::<char>::empty()]);
    } else {
        let yd = y.drop_last();
        lemma_split_concat(x, yd);
        lemma_split_chars(yd);
        assert(s.drop_last() =~= x + seq!['/'] + yd);
        assert(s.last() == y.last());
        let a = split_components(x);
        let b = split_components(yd);
        if y.last() == '/' {
            assert((a + b).push(Seq::<char>::empty()) =~= a + b.push(Seq::<char>::empty()));
        } else {
            assert((a + b).update((a + b).len() - 1, (a + b).last().push(y.last())) =~= a + b.update(
                b.len() - 1,
                b.last().push(y.last()),
            ));
        }
    }
}

/// Keeping the components of two lists keeps those of each, in order.
proof fn lemma_kept_concat(a: Seq<Seq<char>>, b: Seq<Seq<char>>)
    ensures
        kept_components(a + b) == kept_components(a) + kept_components(b),
    decreases b.len(),
{
    if b.len() == 0 {
        assert(a + b =~= a);
        assert(kept_components(a) + kept_components(b) =~= kept_components(a));
    } else {
        lemma_kept_concat(a, b.drop_last());
        assert((a + b).drop_last() =~= a + b.drop_last());
        assert((a + b).last() == b.last());
        if !is_skipped_component(b.last()) {
            assert((kept_components(a) + kept_components(b.drop_last())).push(b.last()) =~= kept_components(a)
                + kept_components(b.drop_last()).push(b.last()));
        }
    }
}

/// Joining two non-empty lists of components joins each and puts `/`
/// between them.
proof fn lemma_join_concat(a: Seq<Seq<char>>, b: Seq<Seq<char>>)
    requires
        a.len() > 0,
        b.len() > 0,
    ensures
        join_components(a + b) == join_components(a) + seq!['/'] + join_components(b),
    decreases b.len(),
{
    if b.len() == 1 {
        assert((a + b).drop_last() =~= a);
        assert((a + b).last() == b[0]);
    } else {
        let bd = b.drop_last();
        lemma_join_concat(a, bd);
        assert((a + b).drop_last() =~= a + bd);
        assert((a + b).last() == b.last());
        assert(join_components(a) + seq!['/'] + join_components(bd) + seq!['/'] + b.last() =~= join_components(a) + seq!['/']
            + (join_components(bd) + seq!['/'] + b.last()));
    }
}

/// Joining a name to a non-root path never leaves the path's subtree: what
/// the join parses to is the path itself or lies below it (`..` in the name
/// is refused).
pub proof fn lemma_join_stays_below(p: Seq<char>, name: Seq<char>)
    requires
        parse_outcome(p) == Ok::<Seq<char>, PathIssue>(p),
        p.len() > 0,
        parse_outcome(p + seq!['/'] + name) is Ok,
    ensures
        ({
            let q = parse_outcome(p + seq!['/'] + name)->Ok_0;
            q == p || (p + seq!['/']).is_prefix_of(q)
        }),
{
    lemma_parse_is_idempotent(p);
    lemma_normalize_noop(p);
    let m = normalize_separators(name);
    assert(normalize_separators(p + seq!['/'] + name) =~= p + seq!['/'] + m);
    lemma_split_concat(p, m);
    let a = split_components(p);
    let b = split_components(m);
    lemma_kept_concat(a, b);
    lemma_kept_all(a);
    lemma_split_chars(p);
    assert(a.len() > 0);
    let q = join_components(kept_components(a) + kept_components(b));
    assert(q == parse_outcome(p + seq!['/'] + name)->Ok_0);
    assert(join_components(a) == p);
    if kept_components(b).len() > 0 {
        lemma_join_concat(a, kept_components(b));
        assert((p + seq!['/']).is_prefix_of(q)) by {
            assert(q.subrange(0, p.len() + 1int) =~= p + seq!['/']);
        }
    } else {
        assert(kept_components(a) + kept_components(b) =~= a);
    }
}

} // verus!
