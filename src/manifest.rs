//! Text surgery on package manifests: qualifying relative dependency paths,
//! lifting one section out of a manifest, and synthesizing the manifest of a
//! staged build-script package.
use vstd::prelude::*;
use crate::text::{occurs_at, occurs_in, replace_spec, replace_all, lemma_replace_absent,
    lemma_replace_exact, lemma_replace_concat};

verus! {

/// The four path-declaration openers that qualification recognizes, by index:
/// spaced and double-quoted, unspaced and double-quoted, spaced and
/// single-quoted, unspaced and single-quoted.
pub open spec fn opener(k: int) -> Seq<char> {
    if k == 0 {
        seq!['p', 'a', 't', 'h', ' ', '=', ' ', '"']
    } else if k == 1 {
        seq!['p', 'a', 't', 'h', '=', '"']
    } else if k == 2 {
        seq!['p', 'a', 't', 'h', ' ', '=', ' ', '\'']
    } else {
        seq!['p', 'a', 't', 'h', '=', '\'']
    }
}

/// One qualification pass: every occurrence of opener `k` gains `base` and a
/// separator right after it.
pub open spec fn qualify_pass(text: Seq<char>, base: Seq<char>, k: int) -> Seq<char> {
    replace_spec(text, opener(k), opener(k) + base + seq!['/'])
}

/// The four passes, in the order of the openers' indices.
pub open spec fn qualify_spec(text: Seq<char>, base: Seq<char>) -> Seq<char> {
    qualify_pass(
        qualify_pass(qualify_pass(qualify_pass(text, base, 0), base, 1), base, 2),
        base,
        3,
    )
}

/// No opener stands anywhere in `s`.
pub open spec fn declaration_free(s: Seq<char>) -> bool {
    forall|j: int| 0 <= j < 4 ==> !occurs_in(s, #[trigger] opener(j))
}

/// The shape shared by every opener: it starts with `p`, holds no other `p`,
/// and holds no `/`.
proof fn lemma_opener_shape(j: int)
    requires
        0 <= j < 4,
    ensures
        opener(j).len() > 0,
        opener(j)[0] == 'p',
        forall|t: int| 1 <= t < opener(j).len() ==> opener(j)[t] != 'p',
        forall|t: int| 0 <= t < opener(j).len() ==> opener(j)[t] != '/',
        forall|t: int| 0 <= t < opener(j).len() ==> opener(j)[t] != '\n',
{
}

/// Two different openers differ at a position that both have.
proof fn lemma_openers_differ(j: int, k: int) -> (m: int)
    requires
        0 <= j < 4,
        0 <= k < 4,
        j != k,
    ensures
        0 <= m < opener(j).len(),
        0 <= m < opener(k).len(),
        opener(j)[m] != opener(k)[m],
{
    if (j == 0 && k == 2) || (j == 2 && k == 0) {
        7
    } else if (j == 1 && k == 3) || (j == 3 && k == 1) {
        5
    } else {
        4
    }
}

/// No occurrence of an opener straddles the place where another opener, or
/// the same one, begins.
proof fn lemma_no_straddle_before(x: Seq<char>, y: Seq<char>, j: int, k: int, i: int)
    requires
        0 <= j < 4,
        0 <= k < 4,
        y.len() >= opener(k).len(),
        y.subrange(0, opener(k).len() as int) == opener(k),
        0 <= i < x.len() < i + opener(j).len(),
    ensures
        !occurs_at(x + y, opener(j), i),
{
    lemma_opener_shape(j);
    lemma_opener_shape(k);
    if occurs_at(x + y, opener(j), i) {
        let d = x.len() - i;
        assert((x + y).subrange(i, i + opener(j).len())[d] == opener(j)[d]);
        assert(y.subrange(0, opener(k).len() as int)[0] == 'p');
    }
}

/// No occurrence of an opener begins inside opener `k` past its first character.
proof fn lemma_no_start_inside(y: Seq<char>, rest: Seq<char>, j: int, k: int, i: int)
    requires
        0 <= j < 4,
        0 <= k < 4,
        y == opener(k) + rest,
        0 < i < opener(k).len(),
    ensures
        !occurs_at(y, opener(j), i),
{
    lemma_opener_shape(j);
    lemma_opener_shape(k);
    if occurs_at(y, opener(j), i) {
        assert(y.subrange(i, i + opener(j).len())[0] == opener(j)[0]);
        assert(y[i] == opener(k)[i]);
    }
}

/// An occurrence that lies inside a part of a text is an occurrence in that part.
proof fn lemma_occurrence_within(s: Seq<char>, part: Seq<char>, off: int, p: Seq<char>, i: int)
    requires
        0 <= off,
        off + part.len() <= s.len(),
        s.subrange(off, off + part.len()) == part,
        off <= i,
        i + p.len() <= off + part.len(),
        occurs_at(s, p, i),
    ensures
        occurs_at(part, p, i - off),
{
    assert(part.subrange(i - off, i - off + p.len()) =~= s.subrange(i, i + p.len()));
}

/// A base directory followed by a separator and declaration-free text holds no opener.
proof fn lemma_qualified_tail_free(base: Seq<char>, after: Seq<char>, j: int)
    requires
        0 <= j < 4,
        declaration_free(base),
        declaration_free(after),
    ensures
        !occurs_in(base + seq!['/'] + after, opener(j)),
{
    lemma_opener_shape(j);
    let u = base + seq!['/'] + after;
    let q = opener(j);
    assert forall|i: int| !occurs_at(u, q, i) by {
        if occurs_at(u, q, i) {
            if i + q.len() <= base.len() {
                assert(u.subrange(0, base.len() as int) =~= base);
                lemma_occurrence_within(u, base, 0, q, i);
                assert(!occurs_in(base, opener(j)));
            } else if i > base.len() {
                assert(u.subrange(base.len() + 1int, u.len() as int) =~= after);
                lemma_occurrence_within(u, after, base.len() + 1int, q, i);
                assert(!occurs_in(after, opener(j)));
            } else {
                let d = base.len() - i;
                assert(u.subrange(i, i + q.len())[d] == q[d]);
                assert(u[base.len() as int] == '/');
            }
        }
    }
}

/// Opener `j` stands nowhere in `before + opener(k) + tail` when `j != k` and
/// neither part holds an opener.
proof fn lemma_other_opener_absent(before: Seq<char>, tail: Seq<char>, j: int, k: int)
    requires
        0 <= j < 4,
        0 <= k < 4,
        j != k,
        declaration_free(before),
        !occurs_in(tail, opener(j)),
    ensures
        !occurs_in(before + opener(k) + tail, opener(j)),
{
    lemma_opener_shape(j);
    lemma_opener_shape(k);
    let o = opener(k);
    let q = opener(j);
    let y = o + tail;
    let t = before + y;
    assert(before + opener(k) + tail =~= t);
    assert(y.subrange(0, o.len() as int) =~= o);
    assert forall|i: int| !occurs_at(t, q, i) by {
        if occurs_at(t, q, i) {
            if i + q.len() <= before.len() {
                assert(t.subrange(0, before.len() as int) =~= before);
                lemma_occurrence_within(t, before, 0, q, i);
                assert(!occurs_in(before, opener(j)));
            } else if i < before.len() {
                lemma_no_straddle_before(before, y, j, k, i);
            } else if i == before.len() {
                let m = lemma_openers_differ(j, k);
                assert(t.subrange(i, i + q.len())[m] == q[m]);
                assert(t[i + m] == o[m]);
            } else if i < before.len() + o.len() {
                assert(t.subrange(before.len() as int, t.len() as int) =~= y);
                lemma_occurrence_within(t, y, before.len() as int, q, i);
                lemma_no_start_inside(y, tail, j, k, i - before.len());
            } else {
                assert(t.subrange((before.len() + o.len()) as int, t.len() as int) =~= tail);
                lemma_occurrence_within(t, tail, (before.len() + o.len()) as int, q, i);
            }
        }
    }
}

/// One pass of an opener that does not stand in the text leaves it unchanged.
proof fn lemma_pass_absent(text: Seq<char>, base: Seq<char>, j: int)
    requires
        0 <= j < 4,
        !occurs_in(text, opener(j)),
    ensures
        qualify_pass(text, base, j) == text,
{
    lemma_opener_shape(j);
    lemma_replace_absent(text, opener(j), opener(j) + base + seq!['/']);
}

/// Qualification is not idempotent: qualifying an already qualified single
/// declaration inserts the base directory a second time.
pub proof fn lemma_qualify_twice_qualifies_again(
    before: Seq<char>,
    after: Seq<char>,
    base: Seq<char>,
    k: int,
)
    requires
        0 <= k < 4,
        declaration_free(before),
        declaration_free(after),
        declaration_free(base),
    ensures
        qualify_spec(qualify_spec(before + opener(k) + after, base), base)
            == before + opener(k) + base + seq!['/'] + base + seq!['/'] + after,
{
    let tail = base + seq!['/'] + after;
    lemma_qualify_single_declaration(before, after, base, k);
    assert(before + opener(k) + base + seq!['/'] + after =~= before + opener(k) + tail);
    assert forall|j: int| 0 <= j < 4 implies !occurs_in(tail, #[trigger] opener(j)) by {
        lemma_qualified_tail_free(base, after, j);
    }
    lemma_qualify_single_declaration(before, tail, base, k);
    assert(before + opener(k) + base + seq!['/'] + tail
        =~= before + opener(k) + base + seq!['/'] + base + seq!['/'] + after);
}

/// The pass of opener `k` on a text that holds it once.
proof fn lemma_pass_present(before: Seq<char>, after: Seq<char>, base: Seq<char>, k: int)
    requires
        0 <= k < 4,
        declaration_free(before),
        declaration_free(after),
    ensures
        qualify_pass(before + opener(k) + after, base, k)
            == before + opener(k) + (base + seq!['/'] + after),
{
    lemma_opener_shape(k);
    let o = opener(k);
    let r = o + base + seq!['/'];
    let y = o + after;
    assert(before + opener(k) + after =~= before + y);
    assert(y.subrange(0, o.len() as int) =~= o);
    assert forall|i: int| 0 <= i < before.len() < i + o.len() implies !occurs_at(before + y, o, i) by {
        lemma_no_straddle_before(before, y, k, k, i);
    }
    lemma_replace_concat(before, y, o, r);
    assert forall|i: int| 0 <= i < o.len() < i + o.len() implies !occurs_at(o + after, o, i) by {
        lemma_no_start_inside(y, after, k, k, i);
    }
    lemma_replace_concat(o, after, o, r);
    assert(!occurs_in(before, opener(k)));
    assert(!occurs_in(after, opener(k)));
    lemma_replace_absent(before, o, r);
    lemma_replace_absent(after, o, r);
    lemma_replace_exact(o, r);
    assert(before + (r + after) =~= before + opener(k) + (base + seq!['/'] + after));
}

/// Qualifying a text that holds exactly one path declaration, and no other
/// opener, inserts the base directory and a separator right after that
/// declaration's opener, whichever of the four it is, and leaves every other
/// character, the relative path included, as it was.
pub proof fn lemma_qualify_single_declaration(
    before: Seq<char>,
    after: Seq<char>,
    base: Seq<char>,
    k: int,
)
    requires
        0 <= k < 4,
        declaration_free(before),
        declaration_free(after),
        declaration_free(base),
    ensures
        qualify_spec(before + opener(k) + after, base)
            == before + opener(k) + base + seq!['/'] + after,
{
    let t0 = before + opener(k) + after;
    let tail = base + seq!['/'] + after;
    let t1 = before + opener(k) + tail;
    assert forall|j: int| 0 <= j < 4 && j != k implies !occurs_in(t0, opener(j)) by {
        assert(!occurs_in(after, opener(j)));
        lemma_other_opener_absent(before, after, j, k);
    }
    assert forall|j: int| 0 <= j < 4 && j != k implies !occurs_in(t1, opener(j)) by {
        lemma_qualified_tail_free(base, after, j);
        lemma_other_opener_absent(before, tail, j, k);
    }
    lemma_pass_present(before, after, base, k);
    if k == 0 {
        lemma_pass_absent(t1, base, 1);
        lemma_pass_absent(t1, base, 2);
        lemma_pass_absent(t1, base, 3);
    } else if k == 1 {
        lemma_pass_absent(t0, base, 0);
        lemma_pass_absent(t1, base, 2);
        lemma_pass_absent(t1, base, 3);
    } else if k == 2 {
        lemma_pass_absent(t0, base, 0);
        lemma_pass_absent(t0, base, 1);
        lemma_pass_absent(t1, base, 3);
    } else {
        lemma_pass_absent(t0, base, 0);
        lemma_pass_absent(t0, base, 1);
        lemma_pass_absent(t0, base, 2);
    }
    assert(t1 =~= before + opener(k) + base + seq!['/'] + after);
}

/// Position of the first line feed in `s`, or its length when there is none.
pub open spec fn newline_index(s: Seq<char>) -> nat
    decreases s.len(),
{
    if s.len() == 0 {
        0
    } else if s[0] == '\n' {
        0
    } else {
        1 + newline_index(s.subrange(1, s.len() as int))
    }
}

/// A line cut at a line feed loses a carriage return that ends it.
pub open spec fn strip_cr(l: Seq<char>) -> Seq<char> {
    if l.len() > 0 && l.last() == '\r' {
        l.drop_last()
    } else {
        l
    }
}

/// The lines of `s` as `str::lines` gives them: cut at each line feed, a
/// carriage return before the feed dropped, and no empty line after a final feed.
pub open spec fn lines_spec(s: Seq<char>) -> Seq<Seq<char>>
    decreases s.len(),
{
    if s.len() == 0 {
        seq![]
    } else {
        let k = newline_index(s);
        if k < s.len() {
            seq![strip_cr(s.subrange(0, k as int))] + lines_spec(s.subrange(k + 1int, s.len() as int))
        } else {
            seq![s]
        }
    }
}

/// A line that opens a section.
pub open spec fn is_header_line(l: Seq<char>) -> bool {
    l.len() > 0 && l[0] == '['
}

/// The header line of section `name`.
pub open spec fn header_of(name: Seq<char>) -> Seq<char> {
    seq!['['] + name + seq![']']
}

/// Each line followed by a line feed, all joined.
pub open spec fn join_lines(lines: Seq<Seq<char>>) -> Seq<char>
    decreases lines.len(),
{
    if lines.len() == 0 {
        seq![]
    } else {
        lines[0] + seq!['\n'] + join_lines(lines.drop_first())
    }
}

/// The lines up to the next header line, each followed by a line feed.
pub open spec fn capture(lines: Seq<Seq<char>>) -> Seq<char>
    decreases lines.len(),
{
    if lines.len() == 0 || is_header_line(lines[0]) {
        seq![]
    } else {
        lines[0] + seq!['\n'] + capture(lines.drop_first())
    }
}

/// What follows the first line equal to `header`, up to the next header line.
pub open spec fn find_section(lines: Seq<Seq<char>>, header: Seq<char>) -> Seq<char>
    decreases lines.len(),
{
    if lines.len() == 0 {
        seq![]
    } else if lines[0] == header {
        capture(lines.drop_first())
    } else {
        find_section(lines.drop_first(), header)
    }
}

/// The section `name` of manifest text `content`.
pub open spec fn section_spec(content: Seq<char>, name: Seq<char>) -> Seq<char> {
    find_section(lines_spec(content), header_of(name))
}

/// The views of a vector of strings.
pub open spec fn views(v: Seq<String>) -> Seq<Seq<char>> {
    v.map_values(|l: String| l@)
}

/// Cuts `s` into lines, as `str::lines` does.
pub fn split_lines(s: &str) -> (r: Vec<String>)
    ensures
        views(r@) == lines_spec(s@),
{
    let n = s.unicode_len();
    let mut out: Vec<String> = Vec::new();
    let mut start: usize = 0;
    let mut i: usize = 0;
    assert(s@.subrange(0, n as int) =~= s@);
    while i < n
        invariant
            n == s@.len(),
            start <= i <= n,
            views(out@) + lines_spec(s@.subrange(start as int, n as int)) == lines_spec(s@),
            newline_index(s@.subrange(start as int, n as int)) == (i - start) + newline_index(s@.subrange(i as int, n as int)),
        decreases n - i,
    {
        let ghost t = s@.subrange(start as int, n as int);
        let ghost u = s@.subrange(i as int, n as int);
        let c = s.get_char(i);
        if c == '\n' {
            assert(u[0] == '\n');
            let mut end = i;
            if end > start && s.get_char(end - 1) == '\r' {
                end = end - 1;
            }
            let line = s.substring_char(start, end);
            assert(line@ =~= strip_cr(t.subrange(0, (i - start) as int)));
            assert(t.subrange((i - start) + 1, t.len() as int) =~= s@.subrange(i + 1, n as int));
            let ghost before = views(out@);
            out.push(String::from_str(line));
            assert(views(out@) =~= before + seq![line@]);
            i = i + 1;
            start = i;
            assert(views(out@) + lines_spec(s@.subrange(start as int, n as int)) =~= lines_spec(s@));
        } else {
            assert(u.subrange(1, u.len() as int) =~= s@.subrange(i + 1, n as int));
            i = i + 1;
        }
    }
    if start < n {
        let ghost t = s@.subrange(start as int, n as int);
        assert(s@.subrange(n as int, n as int).len() == 0);
        let line = s.substring_char(start, n);
        let ghost before = views(out@);
        out.push(String::from_str(line));
        assert(views(out@) =~= before + seq![line@]);
        assert(views(out@) =~= lines_spec(s@));
    } else {
        assert(views(out@) =~= lines_spec(s@));
    }
    out
}

/// Lifts section `section_name` out of manifest text: every line after the
/// first line that reads `[section_name]`, up to the next line that begins
/// with `[` or the end of the text, each followed by a line feed. When the
/// header is absent the result is empty.
pub fn read_toml_section(content: &str, section_name: &str) -> (r: String)
    ensures
        r@ == section_spec(content@, section_name@),
{
    let lines = split_lines(content);
    let mut header = String::from_str("[");
    header.append(section_name);
    header.append("]");
    proof {
        reveal_strlit("[");
        reveal_strlit("]");
    }
    assert(header@ =~= header_of(section_name@));
    let ghost all = views(lines@);
    let mut section = String::new();
    let mut in_section = false;
    let mut i: usize = 0;
    assert(all.subrange(0, all.len() as int) =~= all);
    while i < lines.len()
        invariant
            all == views(lines@),
            all.len() == lines@.len(),
            all == lines_spec(content@),
            header@ == header_of(section_name@),
            i <= lines.len(),
            !in_section ==> section@.len() == 0 && find_section(all.subrange(i as int, all.len() as int), header@) == section_spec(content@, section_name@),
            in_section ==> section@ + capture(all.subrange(i as int, all.len() as int)) == section_spec(content@, section_name@),
        decreases lines.len() - i,
    {
        let ghost rest = all.subrange(i as int, all.len() as int);
        assert(rest[0] == lines@[i as int]@);
        assert(rest.drop_first() =~= all.subrange(i + 1, all.len() as int));
        let line = lines[i].as_str();
        if in_section && line.unicode_len() > 0 && line.get_char(0) == '[' {
            assert(capture(rest) == Seq::<char>::empty());
            assert(all.subrange(all.len() as int, all.len() as int) =~= Seq::<Seq<char>>::empty());
            assert(section@ + Seq::<char>::empty() =~= section@);
            i = lines.len();
        } else {
            if in_section {
                if line.unicode_len() > 0 {
                    assert(!is_header_line(rest[0]));
                }
                let ghost prev = section@;
                section.append(line);
                section.append("\n");
                proof {
                    reveal_strlit("\n");
                }
                assert(section@ + capture(all.subrange(i + 1, all.len() as int)) =~= prev + capture(rest));
            } else if lines[i] == header {
                in_section = true;
                assert(section@ + capture(all.subrange(i + 1, all.len() as int)) =~= capture(all.subrange(i + 1, all.len() as int)));
            }
            i = i + 1;
        }
    }
    assert(all.subrange(i as int, all.len() as int).len() == 0);
    assert(section@ + Seq::<char>::empty() =~= section@);
    section
}

/// When no line reads as the header, the section is empty.
pub proof fn lemma_missing_section_is_empty(content: Seq<char>, name: Seq<char>)
    requires
        forall|i: int| 0 <= i < lines_spec(content).len() ==> lines_spec(content)[i] != header_of(name),
    ensures
        section_spec(content, name) == Seq::<char>::empty(),
{
    lemma_find_absent(lines_spec(content), header_of(name));
}

proof fn lemma_find_absent(lines: Seq<Seq<char>>, header: Seq<char>)
    requires
        forall|i: int| 0 <= i < lines.len() ==> lines[i] != header,
    ensures
        find_section(lines, header) == Seq::<char>::empty(),
    decreases lines.len(),
{
    if lines.len() > 0 {
        assert(lines[0] != header);
        lemma_find_absent(lines.drop_first(), header);
    }
}

proof fn lemma_capture_to_end(lines: Seq<Seq<char>>)
    requires
        forall|i: int| 0 <= i < lines.len() ==> !is_header_line(#[trigger] lines[i]),
    ensures
        capture(lines) == join_lines(lines),
    decreases lines.len(),
{
    if lines.len() > 0 {
        assert(!is_header_line(lines[0]));
        lemma_capture_to_end(lines.drop_first());
    }
}

proof fn lemma_find_at(lines: Seq<Seq<char>>, header: Seq<char>, h: int)
    requires
        0 <= h < lines.len(),
        lines[h] == header,
        forall|i: int| 0 <= i < h ==> lines[i] != header,
    ensures
        find_section(lines, header) == capture(lines.subrange(h + 1, lines.len() as int)),
    decreases h,
{
    if h == 0 {
        assert(lines.drop_first() =~= lines.subrange(1, lines.len() as int));
    } else {
        assert(lines[0] != header);
        let d = lines.drop_first();
        assert(d.subrange(h, d.len() as int) =~= lines.subrange(h + 1, lines.len() as int));
        lemma_find_at(d, header, h - 1);
    }
}

/// When the section is the last one of the manifest (no header line follows
/// its own header), it runs to the end of the text.
pub proof fn lemma_last_section_runs_to_end(content: Seq<char>, name: Seq<char>, h: int)
    requires
        0 <= h < lines_spec(content).len(),
        lines_spec(content)[h] == header_of(name),
        forall|i: int| 0 <= i < h ==> lines_spec(content)[i] != header_of(name),
        forall|i: int| h < i < lines_spec(content).len() ==> !is_header_line(#[trigger] lines_spec(content)[i]),
    ensures
        section_spec(content, name) == join_lines(lines_spec(content).subrange(h + 1, lines_spec(content).len() as int)),
{
    let lines = lines_spec(content);
    lemma_find_at(lines, header_of(name), h);
    let tail = lines.subrange(h + 1, lines.len() as int);
    assert forall|i: int| 0 <= i < tail.len() implies !is_header_line(#[trigger] tail[i]) by {
        assert(tail[i] == lines[h + 1 + i]);
    }
    lemma_capture_to_end(tail);
}

/// The manifest section that lists the build script's own dependencies.
pub const BUILD_DEPENDENCIES_SECTION: &'static str = "workaround-build-dependencies";

/// The package name, and so the executable name, of a synthesized build-script package.
pub const SYNTHESIZED_PACKAGE_NAME: &'static str = "workaround-build-script";

/// Everything of a synthesized manifest that comes before its dependency lines.
pub const SYNTHESIZED_MANIFEST_HEAD: &'static str = "\n[package]\nname = \"workaround-build-script\"\nversion = \"0.1.0\"\nauthors = [\"The cargo-5730 crate\"]\nedition = \"2018\"\n\n[dependencies]\n";

/// The synthesized manifest around a dependencies section.
pub open spec fn synthesized_manifest_spec(deps: Seq<char>) -> Seq<char> {
    SYNTHESIZED_MANIFEST_HEAD@ + deps + seq!['\n']
}

/// Builds the manifest of a synthesized build-script package: fixed package
/// metadata, then `[dependencies]` holding `deps_section` verbatim.
pub fn synthesized_manifest(deps_section: &str) -> (r: String)
    ensures
        r@ == synthesized_manifest_spec(deps_section@),
{
    let mut r = String::from_str(SYNTHESIZED_MANIFEST_HEAD);
    r.append(deps_section);
    r.append("\n");
    proof {
        reveal_strlit("\n");
    }
    r
}

/// No line feed in `s`.
pub open spec fn single_line(s: Seq<char>) -> bool {
    forall|i: int| 0 <= i < s.len() ==> s[i] != '\n'
}

/// A line that `lines_spec` gives back as it is: no line feed inside and no
/// carriage return at its end.
pub open spec fn plain_line(l: Seq<char>) -> bool {
    single_line(l) && (l.len() == 0 || l.last() != '\r')
}

proof fn lemma_newline_index_at(a: Seq<char>, b: Seq<char>)
    requires
        single_line(a),
    ensures
        newline_index(a + seq!['\n'] + b) == a.len(),
    decreases a.len(),
{
    let s = a + seq!['\n'] + b;
    if a.len() > 0 {
        let a2 = a.subrange(1, a.len() as int);
        assert(s.subrange(1, s.len() as int) =~= a2 + seq!['\n'] + b);
        lemma_newline_index_at(a2, b);
    }
}

/// Text made of plain lines, each ended by a line feed, splits back into
/// those lines.
proof fn lemma_lines_of_joined(ls: Seq<Seq<char>>, rest: Seq<char>)
    requires
        forall|i: int| 0 <= i < ls.len() ==> plain_line(#[trigger] ls[i]),
    ensures
        lines_spec(join_lines(ls) + rest) == ls + lines_spec(rest),
    decreases ls.len(),
{
    if ls.len() == 0 {
        assert(join_lines(ls) + rest =~= rest);
        assert(ls + lines_spec(rest) =~= lines_spec(rest));
    } else {
        let l = ls[0];
        assert(plain_line(l));
        let tail = join_lines(ls.drop_first()) + rest;
        let s = join_lines(ls) + rest;
        assert(s =~= l + seq!['\n'] + tail);
        lemma_newline_index_at(l, tail);
        assert(s.subrange(0, l.len() as int) =~= l);
        assert(s.subrange(l.len() + 1int, s.len() as int) =~= tail);
        assert forall|i: int| 0 <= i < ls.drop_first().len() implies plain_line(#[trigger] ls.drop_first()[i]) by {
            assert(ls.drop_first()[i] == ls[i + 1]);
        }
        lemma_lines_of_joined(ls.drop_first(), rest);
        if l.len() > 0 {
            assert(strip_cr(l) == l);
        }
        assert(seq![l] + (ls.drop_first() + lines_spec(rest)) =~= ls + lines_spec(rest));
    }
}

/// A manifest whose last section is `[name]` holding one line gives that
/// line, with a line feed, as the section: whatever plain lines come before,
/// as long as none of them is the same header.
pub proof fn lemma_last_single_line_section(earlier: Seq<Seq<char>>, name: Seq<char>, line: Seq<char>)
    requires
        forall|i: int| 0 <= i < earlier.len() ==> plain_line(#[trigger] earlier[i]),
        forall|i: int| 0 <= i < earlier.len() ==> #[trigger] earlier[i] != header_of(name),
        single_line(name),
        plain_line(line),
        !is_header_line(line),
    ensures
        section_spec(join_lines(earlier.push(header_of(name)).push(line)), name) == line + seq!['\n'],
{
    let ls = earlier.push(header_of(name)).push(line);
    let h = header_of(name);
    assert(single_line(h)) by {
        assert forall|i: int| 0 <= i < h.len() implies h[i] != '\n' by {
            if 0 < i < h.len() - 1 {
                assert(h[i] == name[i - 1]);
            }
        }
    }
    assert forall|i: int| 0 <= i < ls.len() implies plain_line(#[trigger] ls[i]) by {
        if i < earlier.len() {
            assert(ls[i] == earlier[i]);
        }
    }
    lemma_lines_of_joined(ls, seq![]);
    assert(ls + lines_spec(seq![]) =~= ls);
    assert(join_lines(ls) + Seq::<char>::empty() =~= join_lines(ls));
    let e = earlier.len() as int;
    assert forall|i: int| 0 <= i < e implies ls[i] != h by {
        assert(ls[i] == earlier[i]);
    }
    lemma_find_at(ls, h, e);
    let tail = ls.subrange(e + 1, ls.len() as int);
    assert(tail =~= seq![line]);
    assert(tail.drop_first().len() == 0);
    assert(tail[0] == line);
    assert(capture(tail.drop_first()) == Seq::<char>::empty());
    assert(capture(tail) == line + seq!['\n'] + capture(tail.drop_first()));
    assert(line + seq!['\n'] + Seq::<char>::empty() =~= line + seq!['\n']);
    assert(lines_spec(join_lines(ls)) == ls);
    assert(find_section(ls, h) == capture(tail));
}

/// A line feed after declaration-free text makes no opener.
pub proof fn lemma_declaration_free_line(s: Seq<char>)
    requires
        declaration_free(s),
    ensures
        declaration_free(s + seq!['\n']),
{
    let t = s + seq!['\n'];
    assert forall|j: int| 0 <= j < 4 implies !occurs_in(t, #[trigger] opener(j)) by {
        lemma_opener_shape(j);
        let q = opener(j);
        assert forall|i: int| !occurs_at(t, q, i) by {
            if occurs_at(t, q, i) {
                if i + q.len() <= s.len() {
                    assert(t.subrange(0, s.len() as int) =~= s);
                    lemma_occurrence_within(t, s, 0, q, i);
                    assert(!occurs_in(s, opener(j)));
                } else {
                    let d = s.len() - i;
                    assert(t.subrange(i, i + q.len())[d] == q[d]);
                    assert(t[s.len() as int] == '\n');
                }
            }
        }
    }
}

/// One qualification pass, carried out.
fn qualify_with(text: &str, base_dir: &str, open: &str, Ghost(k): Ghost<int>) -> (r: String)
    requires
        0 <= k < 4,
        open@ == opener(k),
    ensures
        r@ == qualify_pass(text@, base_dir@, k),
{
    let mut rep = String::from_str(open);
    rep.append(base_dir);
    rep.append("/");
    proof {
        reveal_strlit("/");
    }
    assert(rep@ =~= opener(k) + base_dir@ + seq!['/']);
    replace_all(text, open, rep.as_str())
}

/// Makes the relative paths of the dependency declarations in a manifest
/// absolute with respect to `base_dir`: after each of the four openers
/// `path = "`, `path="`, `path = '` and `path='` it inserts `base_dir`
/// followed by `/`. The match is purely lexical.
pub fn qualify_cargo_toml_paths_in_text(cargo_toml_content: &str, base_dir: &str) -> (r: String)
    ensures
        r@ == qualify_spec(cargo_toml_content@, base_dir@),
{
    let o0 = "path = \"";
    let o1 = "path=\"";
    let o2 = "path = '";
    let o3 = "path='";
    proof {
        reveal_strlit("path = \"");
        reveal_strlit("path=\"");
        reveal_strlit("path = '");
        reveal_strlit("path='");
    }
    assert(o0@ =~= opener(0));
    assert(o1@ =~= opener(1));
    assert(o2@ =~= opener(2));
    assert(o3@ =~= opener(3));
    let t0 = qualify_with(cargo_toml_content, base_dir, o0, Ghost(0));
    let t1 = qualify_with(t0.as_str(), base_dir, o1, Ghost(1));
    let t2 = qualify_with(t1.as_str(), base_dir, o2, Ghost(2));
    qualify_with(t2.as_str(), base_dir, o3, Ghost(3))
}

} // verus!
