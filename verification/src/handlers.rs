//! The request-to-filesystem resolution core: request URIs, lexical path
//! normalization, the traversal defense, directory listings and the
//! per-request dispatch decisions.
//!
//! A filesystem path is modeled as the sequence of its components, each a
//! plain string; the configured root directory is such a sequence, and every
//! resolved target is compared against it component by component.

use vstd::prelude::*;

use crate::error::Error;
use crate::filetype::FileType;
use crate::filetype::ImageType;
use crate::filetype::ToContentType;
use crate::filetype::image_type_of;
use crate::filetype::is_image_ext;
use crate::filetype::lookup_image_type;
use crate::template::ImageFallTemplate;
use crate::template::Imgs;

verus! {

/// Character-for-character equality of two string slices.
fn str_eq(a: &str, b: &str) -> (r: bool)
    ensures
        r == (a@ == b@),
{
    let n = a.unicode_len();
    let m = b.unicode_len();
    if n != m {
        return false;
    }
    let mut i: usize = 0;
    while i < n
        invariant
            i <= n,
            n == a@.len(),
            n == b@.len(),
            forall|j: int| 0 <= j < i ==> a@[j] == b@[j],
        decreases n - i,
    {
        if a.get_char(i) != b.get_char(i) {
            return false;
        }
        i += 1;
    }
    assert(a@ =~= b@);
    true
}

/// The URI string a sequence of path segments maps to: `/` before each
/// segment, so `["sub", "pic.png"]` maps to `/sub/pic.png` and the empty
/// sequence maps to the empty string.
pub open spec fn uri_of(segments: Seq<Seq<char>>) -> Seq<char>
    decreases segments.len(),
{
    if segments.len() == 0 {
        Seq::empty()
    } else {
        uri_of(segments.drop_last()).push('/') + segments.last()
    }
}

/// The URI a sequence of excess path components is exposed under: the root
/// marker `/` when there is none, else `/` before each component. A request
/// URI always begins with `/`.
pub open spec fn reverse_uri(segments: Seq<Seq<char>>) -> Seq<char> {
    if segments.len() == 0 {
        "/"@
    } else {
        uri_of(segments)
    }
}

/// A normalized, slash-separated request path as exposed externally.
#[derive(Debug, Clone)]
pub struct Uri(String);

impl View for Uri {
    type V = Seq<char>;

    closed spec fn view(&self) -> Seq<char> {
        self.0@
    }
}

impl Uri {
    /// Wraps an already-normalized URI string.
    pub fn new(s: String) -> (uri: Uri)
        ensures
            uri@ == s@,
    {
        Uri(s)
    }

    /// The URI as a string slice.
    pub fn as_str(&self) -> (s: &str)
        ensures
            s@ == self@,
    {
        self.0.as_str()
    }

    /// Builds the URI of a sequence of path segments: `/` before each one,
    /// and the root marker `/` when there is no segment at all.
    pub fn from_iter(segments: &Vec<String>) -> (uri: Uri)
        ensures
            uri@ == reverse_uri(segments.deep_view()),
    {
        if segments.len() == 0 {
            return Uri("/".to_owned());
        }
        let ghost all = segments.deep_view();
        let mut s = String::new();
        let mut i: usize = 0;
        while i < segments.len()
            invariant
                i <= segments.len(),
                all == segments.deep_view(),
                all.len() == segments.len(),
                forall|j: int| 0 <= j < all.len() ==> all[j] == segments[j]@,
                s@ == uri_of(all.take(i as int)),
            decreases segments.len() - i,
        {
            s.append("/");
            s.append(segments[i].as_str());
            proof {
                reveal_strlit("/");
                assert(all.take(i + 1).drop_last() =~= all.take(i as int));
                assert(s@ =~= uri_of(all.take(i as int)).push('/') + all[i as int]);
            }
            i += 1;
        }
        proof {
            assert(all.take(segments.len() as int) =~= all);
        }
        Uri(s)
    }
}

/// The position of the first `/` in `s`, or `s.len()` if there is none.
pub open spec fn first_slash(s: Seq<char>) -> nat
    decreases s.len(),
{
    if s.len() == 0 {
        0
    } else if s[0] == '/' {
        0
    } else {
        1 + first_slash(s.drop_first())
    }
}

proof fn lemma_first_slash_at(s: Seq<char>, k: int)
    requires
        0 <= k <= s.len(),
        forall|j: int| 0 <= j < k ==> s[j] != '/',
        k < s.len() ==> s[k] == '/',
    ensures
        first_slash(s) == k,
    decreases s.len(),
{
    if s.len() == 0 || k == 0 {
    } else {
        lemma_first_slash_at(s.drop_first(), k - 1);
    }
}

/// The pieces of `s` between its `/` separators, empty pieces included:
/// `/a//b` splits into `["", "a", "", "b"]` and the empty string into `[""]`.
pub open spec fn split_slash(s: Seq<char>) -> Seq<Seq<char>>
    decreases s.len(),
{
    let i = first_slash(s) as int;
    if i >= s.len() {
        seq![s]
    } else {
        seq![s.take(i)] + split_slash(s.skip(i + 1))
    }
}

/// Splits a raw request path on `/` into its pieces, empty pieces included.
pub fn split_request_path(s: &str) -> (segments: Vec<String>)
    ensures
        segments.deep_view() == split_slash(s@),
{
    let n = s.unicode_len();
    let mut segments: Vec<String> = Vec::new();
    let mut pos: usize = 0;
    proof {
        assert(s@.skip(0) =~= s@);
        assert(segments.deep_view() =~= Seq::<Seq<char>>::empty());
        assert(Seq::<Seq<char>>::empty() + split_slash(s@) =~= split_slash(s@));
    }
    loop
        invariant_except_break
            pos <= n,
            n == s@.len(),
            split_slash(s@) == segments.deep_view() + split_slash(s@.skip(pos as int)),
        ensures
            segments.deep_view() == split_slash(s@),
        decreases n - pos,
    {
        let ghost pre = segments.deep_view();
        let ghost t = s@.skip(pos as int);
        let mut j = pos;
        while j < n
            invariant
                pos <= j <= n,
                n == s@.len(),
                forall|k: int| pos <= k < j ==> s@[k] != '/',
            ensures
                pos <= j <= n,
                forall|k: int| pos <= k < j ==> s@[k] != '/',
                j < n ==> s@[j as int] == '/',
            decreases n - j,
        {
            if s.get_char(j) == '/' {
                break ;
            }
            j += 1;
        }
        proof {
            assert forall|m: int| 0 <= m < j - pos implies t[m] != '/' by {
                assert(t[m] == s@[m + pos]);
            }
            lemma_first_slash_at(t, j - pos);
        }
        let piece = s.substring_char(pos, j).to_owned();
        segments.push(piece);
        proof {
            assert(piece@ =~= t.take(j - pos));
            assert(segments.deep_view() =~= pre.push(t.take(j - pos)));
        }
        if j == n {
            proof {
                assert(split_slash(t) == seq![t]);
                assert(piece@ =~= t);
                assert(segments.deep_view() =~= pre + seq![t]);
                assert(segments.deep_view() == split_slash(s@));
            }
            break ;
        }
        proof {
            assert(split_slash(t) == seq![t.take(j - pos)] + split_slash(t.skip(j - pos + 1)));
            assert(t.skip(j - pos + 1) =~= s@.skip(j + 1));
            assert(pre.push(t.take(j - pos)) + split_slash(s@.skip(j + 1)) =~= pre + split_slash(
                t,
            ));
        }
        pos = j + 1;
    }
    segments
}

/// Joining request segments onto a base path, lexically: empty segments and
/// `.` are dropped, `..` removes the last component (never rising above the
/// filesystem root), anything else becomes a new component.
pub open spec fn lexical_join(base: Seq<Seq<char>>, segments: Seq<Seq<char>>) -> Seq<Seq<char>>
    decreases segments.len(),
{
    if segments.len() == 0 {
        base
    } else {
        let prev = lexical_join(base, segments.drop_last());
        let s = segments.last();
        if s.len() == 0 || s == "."@ {
            prev
        } else if s == ".."@ {
            if prev.len() == 0 {
                prev
            } else {
                prev.drop_last()
            }
        } else {
            prev.push(s)
        }
    }
}

fn clone_components(v: &Vec<String>) -> (r: Vec<String>)
    ensures
        r@ == v@,
{
    let mut r: Vec<String> = Vec::new();
    let mut i: usize = 0;
    while i < v.len()
        invariant
            i <= v.len(),
            r@ == v@.take(i as int),
        decreases v.len() - i,
    {
        r.push(v[i].clone());
        proof {
            assert(v@.take(i + 1).drop_last() =~= v@.take(i as int));
            assert(r@ =~= v@.take(i + 1));
        }
        i += 1;
    }
    proof {
        assert(v@.take(v.len() as int) =~= v@);
    }
    r
}

/// The candidate filesystem path a request maps to before the filesystem is
/// consulted: the base path with the request's segments joined on lexically.
pub fn format_path(base: &Vec<String>, segments: &Vec<String>) -> (path: Vec<String>)
    ensures
        path.deep_view() == lexical_join(base.deep_view(), segments.deep_view()),
{
    let ghost all = segments.deep_view();
    let mut path = clone_components(base);
    proof {
        assert(path.deep_view() =~= base.deep_view());
    }
    let mut i: usize = 0;
    while i < segments.len()
        invariant
            i <= segments.len(),
            all == segments.deep_view(),
            all.len() == segments.len(),
            forall|j: int| 0 <= j < all.len() ==> all[j] == segments[j]@,
            path.deep_view() == lexical_join(base.deep_view(), all.take(i as int)),
        decreases segments.len() - i,
    {
        let ghost pre = path.deep_view();
        let seg = &segments[i];
        proof {
            assert(all.take(i + 1).drop_last() =~= all.take(i as int));
            assert(all.take(i + 1).last() == all[i as int]);
        }
        if seg.unicode_len() == 0 || str_eq(seg.as_str(), ".") {
        } else if str_eq(seg.as_str(), "..") {
            if path.len() > 0 {
                path.pop();
                proof {
                    assert(path.deep_view() =~= pre.drop_last());
                }
            }
        } else {
            path.push(seg.clone());
            proof {
                assert(path.deep_view() =~= pre.push(all[i as int]));
            }
        }
        i += 1;
    }
    proof {
        assert(all.take(segments.len() as int) =~= all);
    }
    path
}

/// The request segments that show in a URI: empty segments and `.` are
/// invisible, everything else, `..` included, is kept.
pub open spec fn visible_segments(segments: Seq<Seq<char>>) -> Seq<Seq<char>>
    decreases segments.len(),
{
    if segments.len() == 0 {
        Seq::empty()
    } else {
        let rest = visible_segments(segments.drop_last());
        let s = segments.last();
        if s.len() == 0 || s == "."@ {
            rest
        } else {
            rest.push(s)
        }
    }
}

/// The URI a raw request path is exposed under: `/` when nothing of it is
/// visible, else `/` before each visible segment.
pub open spec fn frompath_spec(segments: Seq<Seq<char>>) -> Seq<char> {
    reverse_uri(visible_segments(segments))
}

impl Uri {
    /// The URI a raw request path, already split into segments, is exposed
    /// under.
    pub fn frompath(path: &Vec<String>) -> (uri: Uri)
        ensures
            uri@ == frompath_spec(path.deep_view()),
    {
        let ghost all = path.deep_view();
        let mut visible: Vec<String> = Vec::new();
        let mut i: usize = 0;
        while i < path.len()
            invariant
                i <= path.len(),
                all == path.deep_view(),
                all.len() == path.len(),
                forall|j: int| 0 <= j < all.len() ==> all[j] == path[j]@,
                visible.deep_view() == visible_segments(all.take(i as int)),
            decreases path.len() - i,
        {
            let ghost pre = visible.deep_view();
            let seg = &path[i];
            proof {
                assert(all.take(i + 1).drop_last() =~= all.take(i as int));
                assert(all.take(i + 1).last() == all[i as int]);
            }
            if seg.unicode_len() == 0 || str_eq(seg.as_str(), ".") {
            } else {
                visible.push(seg.clone());
                proof {
                    assert(visible.deep_view() =~= pre.push(all[i as int]));
                }
            }
            i += 1;
        }
        proof {
            assert(all.take(path.len() as int) =~= all);
        }
        Uri::from_iter(&visible)
    }
}

/// Does `base` stand at the start of `target`, component for component?
pub open spec fn is_component_prefix(base: Seq<Seq<char>>, target: Seq<Seq<char>>) -> bool {
    base.len() <= target.len() && forall|i: int| 0 <= i < base.len() ==> base[i] == target[i]
}

/// The traversal defense: accepts `relative_path` only when `base_path`
/// stands at its start, component for component, and then computes the
/// request URI of the part beyond the base. Handing in canonicalized
/// component sequences makes the check catch symlink escapes as well.
pub fn reslove_relative_path(base_path: &Vec<String>, relative_path: &Vec<String>) -> (r: Result<
    Uri,
    Error,
>)
    ensures
        is_component_prefix(base_path.deep_view(), relative_path.deep_view()) ==> (r matches Ok(uri)
            && uri@ == reverse_uri(relative_path.deep_view().skip(base_path.len() as int))),
        !is_component_prefix(base_path.deep_view(), relative_path.deep_view()) ==> (r matches Err(e)
            && e is PathTraversal),
{
    let ghost base = base_path.deep_view();
    let ghost target = relative_path.deep_view();
    if relative_path.len() < base_path.len() {
        return Err(Error::PathTraversal);
    }
    let mut i: usize = 0;
    while i < base_path.len()
        invariant
            i <= base_path.len() <= relative_path.len(),
            base == base_path.deep_view(),
            target == relative_path.deep_view(),
            forall|j: int| 0 <= j < i ==> base[j] == target[j],
        decreases base_path.len() - i,
    {
        if !str_eq(base_path[i].as_str(), relative_path[i].as_str()) {
            proof {
                assert(base[i as int] == base_path@[i as int]@);
                assert(target[i as int] == relative_path@[i as int]@);
                assert(!is_component_prefix(base, target));
            }
            return Err(Error::PathTraversal);
        }
        i += 1;
    }
    let mut suffix: Vec<String> = Vec::new();
    let mut j: usize = base_path.len();
    proof {
        assert(suffix.deep_view() =~= target.subrange(base.len() as int, base.len() as int));
    }
    while j < relative_path.len()
        invariant
            base_path.len() <= j <= relative_path.len(),
            base.len() == base_path.len(),
            target == relative_path.deep_view(),
            target.len() == relative_path.len(),
            suffix.deep_view() == target.subrange(base.len() as int, j as int),
        decreases relative_path.len() - j,
    {
        let ghost pre = suffix.deep_view();
        suffix.push(relative_path[j].clone());
        proof {
            assert(suffix.deep_view() =~= pre.push(target[j as int]));
            assert(pre.push(target[j as int]) =~= target.subrange(base.len() as int, j + 1));
        }
        j += 1;
    }
    proof {
        assert(target.subrange(base.len() as int, target.len() as int) =~= target.skip(
            base.len() as int,
        ));
    }
    Ok(Uri::from_iter(&suffix))
}

/// A resolved entry: an absolute filesystem path, as its component sequence,
/// together with the request URI it is exposed under.
#[derive(Debug, Clone)]
pub struct UriBox {
    pub path: Vec<String>,
    pub uri: Uri,
}

impl UriBox {
    pub fn new(path: Vec<String>, uri: Uri) -> (b: UriBox)
        ensures
            b.path == path,
            b.uri == uri,
    {
        UriBox { path, uri }
    }
}

/// A canonical path component: nonempty, free of `/`, and not a dot segment.
pub open spec fn valid_component(c: Seq<char>) -> bool {
    c.len() > 0 && c != "."@ && c != ".."@ && forall|i: int| 0 <= i < c.len() ==> c[i] != '/'
}

proof fn lemma_uri_of_front(segments: Seq<Seq<char>>)
    requires
        segments.len() > 0,
    ensures
        uri_of(segments) == seq!['/'] + segments.first() + uri_of(segments.drop_first()),
    decreases segments.len(),
{
    if segments.len() == 1 {
        assert(segments.drop_last() =~= Seq::<Seq<char>>::empty());
        assert(segments.drop_first() =~= Seq::<Seq<char>>::empty());
        assert(uri_of(segments) =~= seq!['/'] + segments.first() + uri_of(segments.drop_first()));
    } else {
        lemma_uri_of_front(segments.drop_last());
        assert(segments.drop_last().drop_first() =~= segments.drop_first().drop_last());
        assert(segments.drop_last().first() == segments.first());
        assert(segments.drop_first().last() == segments.last());
        assert(uri_of(segments) =~= seq!['/'] + segments.first() + uri_of(segments.drop_first()));
    }
}

proof fn lemma_split_after_first(segments: Seq<Seq<char>>)
    requires
        segments.len() > 0,
        forall|i: int| 0 <= i < segments.len() ==> valid_component(#[trigger] segments[i]),
    ensures
        split_slash(segments.first() + uri_of(segments.drop_first())) == segments,
    decreases segments.len(),
{
    let s = segments.first();
    let rest = segments.drop_first();
    let u = s + uri_of(rest);
    assert(valid_component(s));
    if segments.len() == 1 {
        assert(rest =~= Seq::<Seq<char>>::empty());
        assert(u =~= s);
        lemma_first_slash_at(s, s.len() as int);
        assert(split_slash(u) =~= segments);
    } else {
        assert forall|i: int| 0 <= i < rest.len() implies valid_component(#[trigger] rest[i]) by {
            assert(rest[i] == segments[i + 1]);
        }
        lemma_uri_of_front(rest);
        assert forall|j: int| 0 <= j < s.len() implies u[j] != '/' by {
            assert(u[j] == s[j]);
        }
        assert(u[s.len() as int] == '/');
        lemma_first_slash_at(u, s.len() as int);
        assert(u.take(s.len() as int) =~= s);
        assert(u.skip(s.len() as int + 1) =~= rest.first() + uri_of(rest.drop_first()));
        lemma_split_after_first(rest);
        assert(split_slash(u) =~= seq![s] + rest);
        assert(seq![s] + rest =~= segments);
    }
}

proof fn lemma_split_uri(segments: Seq<Seq<char>>)
    requires
        forall|i: int| 0 <= i < segments.len() ==> valid_component(#[trigger] segments[i]),
    ensures
        split_slash(uri_of(segments)) == seq![Seq::<char>::empty()] + segments,
    decreases segments.len(),
{
    if segments.len() == 0 {
        assert(uri_of(segments) == Seq::<char>::empty());
        assert(split_slash(uri_of(segments)) =~= seq![Seq::<char>::empty()] + segments);
    } else {
        lemma_uri_of_front(segments);
        let u = uri_of(segments);
        assert(u[0] == '/');
        lemma_first_slash_at(u, 0);
        assert(u.take(0) =~= Seq::<char>::empty());
        assert(u.skip(1) =~= segments.first() + uri_of(segments.drop_first()));
        lemma_split_after_first(segments);
        assert(split_slash(u) =~= seq![Seq::<char>::empty()] + segments);
    }
}

proof fn lemma_join_uri_segments(base: Seq<Seq<char>>, suffix: Seq<Seq<char>>)
    requires
        forall|i: int| 0 <= i < suffix.len() ==> valid_component(#[trigger] suffix[i]),
    ensures
        lexical_join(base, seq![Seq::<char>::empty()] + suffix) == base + suffix,
    decreases suffix.len(),
{
    let segs = seq![Seq::<char>::empty()] + suffix;
    if suffix.len() == 0 {
        assert(segs.drop_last() =~= Seq::<Seq<char>>::empty());
        assert(segs.last().len() == 0);
        assert(lexical_join(base, Seq::<Seq<char>>::empty()) == base);
        assert(lexical_join(base, segs) == lexical_join(base, segs.drop_last()));
        assert(base + suffix =~= base);
    } else {
        assert forall|i: int| 0 <= i < suffix.drop_last().len() implies valid_component(
            #[trigger] suffix.drop_last()[i],
        ) by {
            assert(suffix.drop_last()[i] == suffix[i]);
        }
        assert(segs.drop_last() =~= seq![Seq::<char>::empty()] + suffix.drop_last());
        lemma_join_uri_segments(base, suffix.drop_last());
        assert(segs.last() == suffix.last());
        assert(valid_component(suffix.last()));
        assert(lexical_join(base, segs) == lexical_join(base, segs.drop_last()).push(segs.last()));
        assert(lexical_join(base, segs) == (base + suffix.drop_last()).push(suffix.last()));
        assert((base + suffix.drop_last()).push(suffix.last()) =~= base + suffix);
    }
}

/// Round trip: mapping a target path under the base back to its request URI,
/// splitting that URI into raw segments again and joining them onto the base
/// lexically reproduces exactly the target path.
pub proof fn lemma_resolution_round_trip(base: Seq<Seq<char>>, target: Seq<Seq<char>>)
    requires
        is_component_prefix(base, target),
        forall|i: int| 0 <= i < target.len() ==> valid_component(#[trigger] target[i]),
    ensures
        lexical_join(base, split_slash(reverse_uri(target.skip(base.len() as int)))) == target,
{
    let suffix = target.skip(base.len() as int);
    if suffix.len() == 0 {
        assert(target =~= base);
        reveal_strlit("/");
        let u = "/"@;
        let empty = Seq::<char>::empty();
        assert(u.len() == 1);
        assert(u[0] == '/');
        lemma_first_slash_at(u, 0);
        assert(u.take(0) =~= empty);
        assert(u.skip(1) =~= empty);
        assert(split_slash(empty) == seq![empty]);
        assert(split_slash(u) == seq![empty] + split_slash(empty));
        let segs = seq![empty, empty];
        assert(split_slash(u) =~= segs);
        assert(segs.drop_last() =~= seq![empty]);
        assert(seq![empty].drop_last() =~= Seq::<Seq<char>>::empty());
        assert(lexical_join(base, Seq::<Seq<char>>::empty()) == base);
        assert(lexical_join(base, seq![empty]) == base);
        assert(lexical_join(base, segs) == base);
    } else {
        assert forall|i: int| 0 <= i < suffix.len() implies valid_component(
            #[trigger] suffix[i],
        ) by {
            assert(suffix[i] == target[i + base.len()]);
        }
        lemma_split_uri(suffix);
        lemma_join_uri_segments(base, suffix);
        assert(base + suffix =~= target);
    }
}

/// The index of the last `.` in `s`, or `-1` if there is none.
pub open spec fn last_dot_index(s: Seq<char>) -> int
    decreases s.len(),
{
    if s.len() == 0 {
        -1
    } else if s.last() == '.' {
        s.len() - 1
    } else {
        last_dot_index(s.drop_last())
    }
}

/// The extension of a file name: what follows the last `.`, unless the name
/// has no `.` at all or only starts with one.
pub open spec fn ext_of(name: Seq<char>) -> Option<Seq<char>> {
    let i = last_dot_index(name);
    if i <= 0 {
        None
    } else {
        Some(name.skip(i + 1))
    }
}

proof fn lemma_last_dot_at(s: Seq<char>, k: int)
    requires
        -1 <= k < s.len(),
        k >= 0 ==> s[k] == '.',
        forall|j: int| k < j < s.len() ==> s[j] != '.',
    ensures
        last_dot_index(s) == k,
    decreases s.len(),
{
    if s.len() == 0 || k == s.len() - 1 {
    } else {
        lemma_last_dot_at(s.drop_last(), k);
    }
}

/// The extension of a file name, if it has one.
pub fn extension_of(name: &str) -> (r: Option<String>)
    ensures
        r matches Some(e) ==> (ext_of(name@) matches Some(x) && e@ == x),
        r is None ==> ext_of(name@) is None,
{
    let n = name.unicode_len();
    let mut i: usize = n;
    while i > 0
        invariant
            i <= n,
            n == name@.len(),
            forall|j: int| i <= j < n ==> name@[j] != '.',
        ensures
            i <= n,
            n == name@.len(),
            forall|j: int| i <= j < n ==> name@[j] != '.',
            i > 0 ==> name@[i - 1] == '.',
        decreases i,
    {
        if name.get_char(i - 1) == '.' {
            break ;
        }
        i -= 1;
    }
    if i == 0 {
        proof {
            lemma_last_dot_at(name@, -1);
        }
        None
    } else if i == 1 {
        proof {
            lemma_last_dot_at(name@, 0);
        }
        None
    } else {
        proof {
            lemma_last_dot_at(name@, i - 1);
        }
        let e = name.substring_char(i, n).to_owned();
        proof {
            assert(e@ =~= name@.skip(i as int));
        }
        Some(e)
    }
}

/// Do all listed children lie under the base path?
pub open spec fn all_children_under(base: Seq<Seq<char>>, children: Seq<Seq<Seq<char>>>) -> bool {
    forall|i: int| 0 <= i < children.len() ==> is_component_prefix(base, #[trigger] children[i])
}

/// The directory listing: pairs every regular-file child, given as its
/// canonical component sequence, with its request URI; a child outside the
/// base path fails the whole listing.
pub fn get_item(base_path: &Vec<String>, children: &Vec<Vec<String>>) -> (r: Result<
    Vec<UriBox>,
    Error,
>)
    ensures
        match r {
            Ok(items) => {
                &&& all_children_under(base_path.deep_view(), children.deep_view())
                &&& items@.len() == children@.len()
                &&& forall|i: int|
                    0 <= i < items@.len() ==> (#[trigger] items@[i]).path.deep_view()
                        == children.deep_view()[i] && items@[i].uri@ == reverse_uri(
                        children.deep_view()[i].skip(base_path.len() as int),
                    )
            },
            Err(e) => e is PathTraversal && !all_children_under(
                base_path.deep_view(),
                children.deep_view(),
            ),
        },
{
    let ghost base = base_path.deep_view();
    let ghost kids = children.deep_view();
    let mut items: Vec<UriBox> = Vec::new();
    let mut i: usize = 0;
    while i < children.len()
        invariant
            i <= children.len(),
            base == base_path.deep_view(),
            kids == children.deep_view(),
            kids.len() == children.len(),
            base.len() == base_path.len(),
            items@.len() == i,
            forall|j: int| 0 <= j < i ==> is_component_prefix(base, #[trigger] kids[j]),
            forall|j: int|
                0 <= j < i ==> (#[trigger] items@[j]).path.deep_view() == kids[j]
                    && items@[j].uri@ == reverse_uri(kids[j].skip(base.len() as int)),
        decreases children.len() - i,
    {
        let child = &children[i];
        proof {
            assert(kids[i as int] == children@[i as int].deep_view());
        }
        match reslove_relative_path(base_path, child) {
            Ok(uri) => {
                items.push(UriBox::new(clone_components(child), uri));
            },
            Err(_) => {
                return Err(Error::PathTraversal);
            },
        }
        i += 1;
    }
    Ok(items)
}

/// Is this resolved path shown in the gallery: does its file name carry an
/// extension that names an image?
pub open spec fn is_gallery_path(path: Seq<Seq<char>>) -> bool {
    path.len() > 0 && (ext_of(path.last()) matches Some(e) && is_image_ext(e))
}

/// The request URIs of the gallery images among the listed items, in listing
/// order.
pub open spec fn gallery_of(items: Seq<UriBox>) -> Seq<Seq<char>>
    decreases items.len(),
{
    if items.len() == 0 {
        Seq::empty()
    } else {
        let rest = gallery_of(items.drop_last());
        if is_gallery_path(items.last().path.deep_view()) {
            rest.push(items.last().uri@)
        } else {
            rest
        }
    }
}

/// The gallery of a listing is empty exactly when none of its items is an
/// image file.
pub proof fn lemma_gallery_empty_iff_no_images(items: Seq<UriBox>)
    ensures
        gallery_of(items).len() == 0 <==> forall|i: int|
            0 <= i < items.len() ==> !is_gallery_path((#[trigger] items[i]).path.deep_view()),
    decreases items.len(),
{
    if items.len() > 0 {
        lemma_gallery_empty_iff_no_images(items.drop_last());
        assert forall|i: int| 0 <= i < items.drop_last().len() implies items.drop_last()[i]
            == items[i] by {}
        if gallery_of(items).len() == 0 {
            assert(!is_gallery_path(items.last().path.deep_view()));
        }
    }
}

/// Filters a directory listing down to its gallery images, keeping the
/// listing order.
pub fn gallery_imgs(items: &Vec<UriBox>) -> (imgs: Vec<Imgs>)
    ensures
        imgs@.map_values(|img: Imgs| img@) == gallery_of(items@),
{
    let mut imgs: Vec<Imgs> = Vec::new();
    proof {
        assert(imgs@.map_values(|img: Imgs| img@) =~= gallery_of(items@.take(0)));
    }
    let mut i: usize = 0;
    while i < items.len()
        invariant
            i <= items.len(),
            imgs@.map_values(|img: Imgs| img@) == gallery_of(items@.take(i as int)),
        decreases items.len() - i,
    {
        let ghost pre = imgs@.map_values(|img: Imgs| img@);
        proof {
            assert(items@.take(i + 1).drop_last() =~= items@.take(i as int));
            assert(items@.take(i + 1).last() == items@[i as int]);
        }
        let item = &items[i];
        if item.path.len() > 0 {
            let name = &item.path[item.path.len() - 1];
            proof {
                assert(item.path.deep_view().last() == name@);
            }
            match extension_of(name.as_str()) {
                Some(e) => {
                    if ImageType::is_image_file(e.as_str()) {
                        imgs.push(Imgs::new(item.uri.as_str().to_owned()));
                        proof {
                            assert(imgs@.map_values(|img: Imgs| img@) =~= pre.push(item.uri@));
                        }
                    }
                },
                None => {},
            }
        }
        i += 1;
    }
    proof {
        assert(items@.take(items.len() as int) =~= items@);
    }
    imgs
}

/// The file type an extension names.
pub open spec fn file_type_of(ext: Seq<char>) -> FileType {
    match image_type_of(ext) {
        Some(image) => FileType::Image(image),
        None => FileType::Other,
    }
}

/// Classifies a file extension, case-insensitively.
pub fn extension_handler(ext: String) -> (t: FileType)
    ensures
        t == file_type_of(ext@),
{
    if ImageType::is_image_file(ext.as_str()) {
        FileType::Image(image_extension_handler(ext.as_str()))
    } else {
        FileType::Other
    }
}

/// The image subtype of an extension already known to name an image.
pub fn image_extension_handler(extension: &str) -> (t: ImageType)
    requires
        is_image_ext(extension@),
    ensures
        Some(t) == image_type_of(extension@),
{
    match lookup_image_type(extension) {
        Some(t) => t,
        None => vstd::pervasive::unreached(),
    }
}

/// The file type served for an entry with the given extension: no extension,
/// like an unrecognized one, is opaque data.
pub fn classify(extension: Option<&str>) -> (t: FileType)
    ensures
        extension matches Some(e) ==> t == file_type_of(e@),
        extension is None ==> t == FileType::Other,
{
    match extension {
        Some(e) => extension_handler(e.to_owned()),
        None => FileType::Other,
    }
}

/// The `Content-Type` header value a file response carries.
pub fn file_content_type(extension: Option<&str>) -> (s: String)
    ensures
        extension matches Some(e) ==> s@ == file_type_of(e@).content_type_spec(),
        extension is None ==> s@ == "application/octet-stream"@,
{
    classify(extension).get_content_type()
}

/// What an existence probe showed a resolved path to be.
#[derive(Debug, PartialEq, Eq, Structural, Clone, Copy)]
pub enum EntryKind {
    Root,
    RegularFile,
    Directory,
    Neither,
    Missing,
}

/// What the dispatcher does with a request once the entry kind is known.
#[derive(Debug, PartialEq, Eq, Structural, Clone, Copy)]
pub enum Decision {
    ServeFile,
    ServeDir,
    NotFound,
    Unsupported,
}

/// The dispatch decision each entry kind leads to: the root and any other
/// directory are listed, a regular file is streamed, a missing target is not
/// found, anything else is unsupported.
pub open spec fn decision_of(kind: EntryKind) -> Decision {
    match kind {
        EntryKind::Root => Decision::ServeDir,
        EntryKind::Directory => Decision::ServeDir,
        EntryKind::RegularFile => Decision::ServeFile,
        EntryKind::Missing => Decision::NotFound,
        EntryKind::Neither => Decision::Unsupported,
    }
}

/// One request's dispatch decision from the probed entry kind.
pub fn decide_entry(kind: &EntryKind) -> (d: Decision)
    ensures
        d == decision_of(*kind),
{
    match kind {
        EntryKind::Root => Decision::ServeDir,
        EntryKind::Directory => Decision::ServeDir,
        EntryKind::RegularFile => Decision::ServeFile,
        EntryKind::Missing => Decision::NotFound,
        EntryKind::Neither => Decision::Unsupported,
    }
}

/// The HTTP status a decision answers with before any further work: a missing
/// target is not found, an unsupported entry an internal error, and serving a
/// file or directory starts out OK.
pub fn decision_status(d: &Decision) -> (code: u16)
    ensures
        *d == Decision::NotFound ==> code == 404,
        *d == Decision::Unsupported ==> code == 500,
        *d == Decision::ServeFile || *d == Decision::ServeDir ==> code == 200,
{
    match d {
        Decision::ServeFile => 200,
        Decision::ServeDir => 200,
        Decision::NotFound => 404,
        Decision::Unsupported => 500,
    }
}

/// How a directory request is answered: the fixed "no resources" page when
/// the listing holds no image, else the gallery template data.
pub enum DirOutcome {
    NoResources,
    Gallery(ImageFallTemplate),
}

/// Builds the directory response from the filtered gallery images.
pub fn dir_response(imgs: Vec<Imgs>, column_width: usize) -> (o: DirOutcome)
    ensures
        imgs@.len() == 0 ==> o is NoResources,
        imgs@.len() > 0 ==> (o matches DirOutcome::Gallery(t) && t.imgs == imgs && t.column_width
            == column_width),
{
    if imgs.len() == 0 {
        DirOutcome::NoResources
    } else {
        DirOutcome::Gallery(ImageFallTemplate { imgs, column_width })
    }
}

} // verus!
