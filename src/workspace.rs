//! The scratch workspace: its randomly suffixed name under the temp root and
//! the check that guards its removal.
use vstd::prelude::*;
use crate::text::matches_at;

verus! {

/// Prefix of every workspace directory name.
pub const WORKSPACE_PREFIX: &'static str = "build-script-";

/// Lower-case hexadecimal digits, by value.
pub const HEX_DIGITS: &'static str = "0123456789abcdef";

/// The digit for a value below sixteen.
pub open spec fn hex_char(d: u8) -> char {
    HEX_DIGITS@[d as int]
}

/// A byte as two lower-case hexadecimal digits, high digit first.
pub open spec fn byte_hex(b: u8) -> Seq<char> {
    seq![hex_char(b / 16), hex_char(b % 16)]
}

/// The bytes in hexadecimal, one after another.
pub open spec fn bytes_hex(bs: Seq<u8>) -> Seq<char>
    decreases bs.len(),
{
    if bs.len() == 0 {
        seq![]
    } else {
        bytes_hex(bs.drop_last()) + byte_hex(bs.last())
    }
}

/// The name of the workspace directory made from `random`.
pub open spec fn workspace_name_spec(random: Seq<u8>) -> Seq<char> {
    WORKSPACE_PREFIX@ + bytes_hex(random)
}

/// `name` appended to `base` as one more path component, as `PathBuf::push`
/// does for a relative name: a separator goes between them unless `base` is
/// empty or already ends with one.
pub open spec fn join_spec(base: Seq<char>, name: Seq<char>) -> Seq<char> {
    if base.len() > 0 && base.last() != '/' {
        base + seq!['/'] + name
    } else {
        base + name
    }
}

/// The root with a separator at its end.
pub open spec fn dir_prefix(root: Seq<char>) -> Seq<char> {
    if root.len() > 0 && root.last() == '/' {
        root
    } else {
        root + seq!['/']
    }
}

/// `rest[j..e]` is a whole component of `rest`: not empty, bounded by
/// separators or the ends of `rest`, with no separator inside.
pub open spec fn component_at(rest: Seq<char>, j: int, e: int) -> bool {
    &&& 0 <= j < e <= rest.len()
    &&& (j == 0 || rest[j - 1] == '/')
    &&& (e == rest.len() || rest[e] == '/')
    &&& forall|k: int| j <= k < e ==> rest[k] != '/'
}

/// `rest[j..e]` is `.` or `..`, which name no entry of their own.
pub open spec fn is_dot_component(rest: Seq<char>, j: int, e: int) -> bool {
    ||| (e - j == 1 && rest[j] == '.')
    ||| (e - j == 2 && rest[j] == '.' && rest[j + 1] == '.')
}

/// A component of `rest` that ends before position `n` names an entry.
pub open spec fn names_entry_below(rest: Seq<char>, n: int) -> bool {
    exists|j: int, e: int| #[trigger] component_at(rest, j, e) && e < n && !is_dot_component(rest, j, e)
}

/// `rest` has a component that is neither `.` nor `..`, so it names an entry.
pub open spec fn names_entry(rest: Seq<char>) -> bool {
    exists|j: int, e: int| #[trigger] component_at(rest, j, e) && !is_dot_component(rest, j, e)
}

/// The one component that ends at `p`, if any, is the one that starts at `s0`.
proof fn lemma_component_ending_at(rest: Seq<char>, s0: int, p: int)
    requires
        0 <= s0 <= p <= rest.len(),
        s0 == 0 || rest[s0 - 1] == '/',
        forall|k: int| s0 <= k < p ==> rest[k] != '/',
        p == rest.len() || rest[p] == '/',
    ensures
        forall|j: int| #[trigger] component_at(rest, j, p) <==> (j == s0 && s0 < p),
{
    assert forall|j: int| #[trigger] component_at(rest, j, p) implies j == s0 by {
        if j < s0 {
            assert(rest[s0 - 1] != '/');
        } else if j > s0 {
            assert(rest[j - 1] != '/');
        }
    }
}

/// A `..` component starts at position `j` of `rest`.
pub open spec fn parent_at(rest: Seq<char>, j: int) -> bool {
    &&& 0 <= j
    &&& j + 2 <= rest.len()
    &&& rest[j] == '.'
    &&& rest[j + 1] == '.'
    &&& (j == 0 || rest[j - 1] == '/')
    &&& (j + 2 == rest.len() || rest[j + 2] == '/')
}

/// `rest` holds a `..` component.
pub open spec fn has_parent_component(rest: Seq<char>) -> bool {
    exists|j: int| parent_at(rest, j)
}

/// `path` lies strictly inside the directory `root`: it is `root`, a
/// separator and a remainder that names an entry and never climbs out with `..`.
pub open spec fn inside_spec(path: Seq<char>, root: Seq<char>) -> bool {
    let prefix = dir_prefix(root);
    &&& root.len() > 0
    &&& prefix.len() < path.len()
    &&& path.subrange(0, prefix.len() as int) == prefix
    &&& names_entry(path.subrange(prefix.len() as int, path.len() as int))
    &&& !has_parent_component(path.subrange(prefix.len() as int, path.len() as int))
}

/// Writes `random` in lower-case hexadecimal, two digits for each byte.
pub fn random_hex(random: &[u8]) -> (r: String)
    ensures
        r@ == bytes_hex(random@),
{
    proof {
        reveal_strlit("0123456789abcdef");
    }
    let mut out = String::new();
    let mut i: usize = 0;
    while i < random.len()
        invariant
            i <= random@.len(),
            HEX_DIGITS@.len() == 16,
            out@ == bytes_hex(random@.subrange(0, i as int)),
        decreases random.len() - i,
    {
        let b = random[i];
        let ghost prev = out@;
        let hi = HEX_DIGITS.substring_char((b / 16) as usize, (b / 16) as usize + 1);
        out.append(hi);
        let lo = HEX_DIGITS.substring_char((b % 16) as usize, (b % 16) as usize + 1);
        out.append(lo);
        assert(random@.subrange(0, i + 1).drop_last() =~= random@.subrange(0, i as int));
        assert(out@ =~= prev + byte_hex(b));
        i = i + 1;
    }
    assert(random@.subrange(0, random@.len() as int) =~= random@);
    out
}

/// The workspace directory name for the random bytes `random`:
/// `build-script-` followed by their hexadecimal digits.
pub fn workspace_dir_name(random: &[u8]) -> (r: String)
    ensures
        r@ == workspace_name_spec(random@),
{
    let mut r = String::from_str(WORKSPACE_PREFIX);
    let hex = random_hex(random);
    r.append(hex.as_str());
    r
}

/// Appends `name` to `base` as one more path component.
pub fn join_path(base: &str, name: &str) -> (r: String)
    ensures
        r@ == join_spec(base@, name@),
{
    let n = base.unicode_len();
    let mut r = String::from_str(base);
    if n > 0 && base.get_char(n - 1) != '/' {
        r.append("/");
        proof {
            reveal_strlit("/");
        }
    }
    r.append(name);
    r
}

/// Whether `path` may be removed as a workspace under `temp_root`: it must lie
/// strictly inside it, so that a removal cannot reach anything else.
pub fn removal_allowed(path: &str, temp_root: &str) -> (b: bool)
    ensures
        b == inside_spec(path@, temp_root@),
{
    let n = temp_root.unicode_len();
    if n == 0 {
        return false;
    }
    let mut prefix = String::from_str(temp_root);
    if temp_root.get_char(n - 1) != '/' {
        prefix.append("/");
        proof {
            reveal_strlit("/");
        }
    }
    assert(prefix@ == dir_prefix(temp_root@));
    let len = path.unicode_len();
    let m = prefix.as_str().unicode_len();
    if m >= len || !matches_at(path, prefix.as_str(), 0) {
        return false;
    }
    let ghost rest = path@.subrange(m as int, len as int);
    let mut named = false;
    let mut parent = false;
    let mut start: usize = m;
    let mut i: usize = m;
    while i < len
        invariant
            len == path@.len(),
            m <= start <= i <= len,
            rest == path@.subrange(m as int, len as int),
            start == m || rest[start - m - 1] == '/',
            forall|k: int| start - m <= k < i - m ==> rest[k] != '/',
            named == names_entry_below(rest, i - m),
            parent == (exists|j: int| 0 <= j < i - m && parent_at(rest, j)),
        decreases len - i,
    {
        let c = path.get_char(i);
        let ghost k = i - m;
        assert(rest[k] == c);
        if c == '/' {
            let dot = (i - start == 1 && path.get_char(start) == '.')
                || (i - start == 2 && path.get_char(start) == '.' && path.get_char(start + 1) == '.');
            proof {
                lemma_component_ending_at(rest, start - m, k);
                if start < i {
                    assert(dot == is_dot_component(rest, start - m, k));
                }
                assert(names_entry_below(rest, k + 1) == (names_entry_below(rest, k)
                    || (start < i && !is_dot_component(rest, start - m, k)))) by {
                    if start < i && !is_dot_component(rest, start - m, k) {
                        assert(component_at(rest, start - m, k));
                    }
                }
            }
            if start < i && !dot {
                named = true;
            }
            start = i + 1;
        } else {
            proof {
                assert forall|j: int, e: int| #[trigger] component_at(rest, j, e) && e < k + 1 implies e < k by {
                    if e == k {
                        assert(rest[e] == '/');
                    }
                }
            }
        }
        let at_parent = c == '.' && 2 <= len - i && path.get_char(i + 1) == '.'
            && (i == m || path.get_char(i - 1) == '/')
            && (2 == len - i || path.get_char(i + 2) == '/');
        assert(at_parent == parent_at(rest, k));
        if at_parent {
            parent = true;
        }
        i = i + 1;
    }
    let ghost l = rest.len() as int;
    let dot = (len - start == 1 && path.get_char(start) == '.')
        || (len - start == 2 && path.get_char(start) == '.' && path.get_char(start + 1) == '.');
    proof {
        lemma_component_ending_at(rest, start - m, l);
        if start < len {
            assert(dot == is_dot_component(rest, start - m, l));
            if !is_dot_component(rest, start - m, l) {
                assert(component_at(rest, start - m, l));
            }
        }
        if names_entry(rest) {
            let (j, e) = choose|j: int, e: int| #[trigger] component_at(rest, j, e) && !is_dot_component(rest, j, e);
            if e < l {
                assert(names_entry_below(rest, l));
            }
        }
    }
    if start < len && !dot {
        named = true;
    }
    named && !parent
}

/// Every byte takes exactly two digits.
pub proof fn lemma_hex_length(bs: Seq<u8>)
    ensures
        bytes_hex(bs).len() == 2 * bs.len(),
    decreases bs.len(),
{
    if bs.len() > 0 {
        lemma_hex_length(bs.drop_last());
    }
}

proof fn lemma_hex_digits_distinct()
    ensures
        forall|a: u8, b: u8| a < 16 && b < 16 && a != b ==> #[trigger] hex_char(a) != #[trigger] hex_char(b),
{
    reveal_strlit("0123456789abcdef");
}

proof fn lemma_byte_hex_injective(a: u8, b: u8)
    requires
        byte_hex(a) == byte_hex(b),
    ensures
        a == b,
{
    lemma_hex_digits_distinct();
    assert(byte_hex(a)[0] == byte_hex(b)[0]);
    assert(byte_hex(a)[1] == byte_hex(b)[1]);
    assert(a / 16 == b / 16);
    assert(a % 16 == b % 16);
}

/// The encoding loses nothing: different bytes give different digits, so
/// different random draws name different workspaces.
pub proof fn lemma_hex_injective(a: Seq<u8>, b: Seq<u8>)
    requires
        bytes_hex(a) == bytes_hex(b),
    ensures
        a == b,
    decreases a.len(),
{
    lemma_hex_length(a);
    lemma_hex_length(b);
    if a.len() > 0 {
        let ha = bytes_hex(a.drop_last());
        let hb = bytes_hex(b.drop_last());
        lemma_hex_length(a.drop_last());
        lemma_hex_length(b.drop_last());
        assert(ha =~= bytes_hex(a).subrange(0, ha.len() as int));
        assert(hb =~= bytes_hex(b).subrange(0, hb.len() as int));
        assert(byte_hex(a.last()) =~= bytes_hex(a).subrange(ha.len() as int, bytes_hex(a).len() as int));
        assert(byte_hex(b.last()) =~= bytes_hex(b).subrange(hb.len() as int, bytes_hex(b).len() as int));
        lemma_hex_injective(a.drop_last(), b.drop_last());
        lemma_byte_hex_injective(a.last(), b.last());
        assert(a =~= a.drop_last().push(a.last()));
        assert(b =~= b.drop_last().push(b.last()));
    }
}

/// Different random draws name different workspace directories.
pub proof fn lemma_workspace_names_distinct(a: Seq<u8>, b: Seq<u8>)
    requires
        a != b,
    ensures
        workspace_name_spec(a) != workspace_name_spec(b),
{
    if workspace_name_spec(a) == workspace_name_spec(b) {
        let n = WORKSPACE_PREFIX@.len() as int;
        assert(bytes_hex(a) =~= workspace_name_spec(a).subrange(n, workspace_name_spec(a).len() as int));
        assert(bytes_hex(b) =~= workspace_name_spec(b).subrange(n, workspace_name_spec(b).len() as int));
        lemma_hex_injective(a, b);
    }
}

/// Every character of `s` is a plain name character: neither a separator nor a dot.
pub open spec fn plain_chars(s: Seq<char>) -> bool {
    forall|j: int| 0 <= j < s.len() ==> #[trigger] s[j] != '/' && s[j] != '.'
}

proof fn lemma_hex_plain(bs: Seq<u8>)
    ensures
        plain_chars(bytes_hex(bs)),
    decreases bs.len(),
{
    reveal_strlit("0123456789abcdef");
    assert(forall|d: int| 0 <= d < 16 ==> #[trigger] HEX_DIGITS@[d] != '/' && HEX_DIGITS@[d] != '.');
    if bs.len() > 0 {
        lemma_hex_plain(bs.drop_last());
        let b = bs.last();
        assert(plain_chars(byte_hex(b)));
    }
}

/// The workspace directory made from any random bytes under a non-empty temp
/// root lies strictly inside it, so its removal is always allowed.
pub proof fn lemma_workspace_inside_root(root: Seq<char>, random: Seq<u8>)
    requires
        root.len() > 0,
    ensures
        inside_spec(join_spec(root, workspace_name_spec(random)), root),
{
    reveal_strlit("build-script-");
    let name = workspace_name_spec(random);
    let prefix = dir_prefix(root);
    let path = join_spec(root, name);
    lemma_hex_plain(random);
    assert(plain_chars(WORKSPACE_PREFIX@));
    assert(plain_chars(name)) by {
        assert forall|j: int| 0 <= j < name.len() implies #[trigger] name[j] != '/' && name[j] != '.' by {
            if j >= WORKSPACE_PREFIX@.len() {
                assert(name[j] == bytes_hex(random)[j - WORKSPACE_PREFIX@.len()]);
            }
        }
    }
    assert(path =~= prefix + name);
    assert(path.subrange(0, prefix.len() as int) =~= prefix);
    assert(path.subrange(prefix.len() as int, path.len() as int) =~= name);
    assert(name[0] == 'b');
    assert(component_at(name, 0, name.len() as int));
    assert(!is_dot_component(name, 0, name.len() as int));
    assert(names_entry(name));
}

/// A path that does not begin with the temp root and a separator is never
/// allowed for removal.
pub proof fn lemma_outside_root_refused(path: Seq<char>, root: Seq<char>)
    requires
        !(dir_prefix(root).len() < path.len() && path.subrange(0, dir_prefix(root).len() as int) == dir_prefix(root)),
    ensures
        !inside_spec(path, root),
{
}

/// A path that climbs out of the temp root through a `..` component is never
/// allowed for removal, even though it begins with the root.
pub proof fn lemma_parent_escape_refused(path: Seq<char>, root: Seq<char>, j: int)
    requires
        dir_prefix(root).len() < path.len(),
        parent_at(path.subrange(dir_prefix(root).len() as int, path.len() as int), j),
    ensures
        !inside_spec(path, root),
{
}

} // verus!
