//! The manifest and the request-body text formats.
//!
//! The body of a `GiveHashes` frame is UTF-8 text, one entry per line,
//! each line `<relative_path> <hex_digest>` with a single space separator
//! and terminated by a newline. The body of a `GetFiles` frame is one
//! relative path per line, terminated the same way.
use vstd::prelude::*;
use vstd::string::StrSliceExecFns;
use vstd::string::StringExecFns;

use crate::errors::RepairError;

verus! {

/// One manifest entry: a relative path and the digest string of the
/// file's content.
pub struct HashedFile {
    pub path: String,
    pub hash: String,
}

/// A relative path as the manifest may carry it: non-empty, with no
/// space, newline or NUL among its characters.
pub open spec fn wf_path(p: Seq<char>) -> bool {
    p.len() > 0 && forall|i: int|
        0 <= i < p.len() ==> p[i] != ' ' && p[i] != '\n' && p[i] != '\u{0}'
}

/// A digest string as the manifest may carry it: non-empty, with no
/// newline or NUL among its characters.
pub open spec fn wf_digest(h: Seq<char>) -> bool {
    h.len() > 0 && forall|i: int| 0 <= i < h.len() ==> h[i] != '\n' && h[i] != '\u{0}'
}

impl HashedFile {
    /// Packs a relative path and its digest string into an entry.
    pub fn new(path: &str, hash: &str) -> (r: HashedFile)
        ensures
            r.path@ == path@,
            r.hash@ == hash@,
    {
        HashedFile { path: String::from_str(path), hash: String::from_str(hash) }
    }

    /// The entry's relative path.
    pub fn get_path(&self) -> (r: &str)
        ensures
            r@ == self.path@,
    {
        self.path.as_str()
    }

    /// The entry's digest string.
    pub fn get_hash(&self) -> (r: &str)
        ensures
            r@ == self.hash@,
    {
        self.hash.as_str()
    }
}

/// The mathematical content of a list of entries: the sequence of
/// (path, digest) character-sequence pairs.
pub open spec fn manifest_model(files: Seq<HashedFile>) -> Seq<(Seq<char>, Seq<char>)> {
    files.map_values(|f: HashedFile| (f.path@, f.hash@))
}

/// The index of the first occurrence of `c` in `s`, or `s.len()` when
/// `c` does not occur.
pub open spec fn char_index(s: Seq<char>, c: char) -> int
    decreases s.len(),
{
    if s.len() == 0 {
        0
    } else if s[0] == c {
        0
    } else {
        1 + char_index(s.drop_first(), c)
    }
}

/// `char_index` finds the first occurrence: nothing before it matches,
/// and it points at a match unless it is `s.len()`.
pub proof fn lemma_char_index(s: Seq<char>, c: char)
    ensures
        0 <= char_index(s, c) <= s.len(),
        forall|m: int| 0 <= m < char_index(s, c) ==> s[m] != c,
        char_index(s, c) < s.len() ==> s[char_index(s, c)] == c,
    decreases s.len(),
{
    if s.len() > 0 && s[0] != c {
        lemma_char_index(s.drop_first(), c);
        assert forall|m: int| 0 <= m < char_index(s, c) implies s[m] != c by {
            if m > 0 {
                assert(s.drop_first()[m - 1] == s[m]);
            }
        }
    }
}

/// A position with no match before it, and a match at it unless it is
/// the length, is exactly `char_index`.
pub proof fn lemma_char_index_is(s: Seq<char>, c: char, d: int)
    requires
        0 <= d <= s.len(),
        forall|m: int| 0 <= m < d ==> s[m] != c,
        d < s.len() ==> s[d] == c,
    ensures
        char_index(s, c) == d,
    decreases s.len(),
{
    if s.len() > 0 {
        if d == 0 {
            if s[0] != c {
                lemma_char_index(s, c);
            }
        } else {
            lemma_char_index_is(s.drop_first(), c, d - 1);
        }
    }
}

/// The first line of `s` (without its newline) and everything after that
/// newline. Text without a newline is one line with nothing after it.
pub open spec fn split_first_line(s: Seq<char>) -> (Seq<char>, Seq<char>) {
    let j = char_index(s, '\n');
    if 0 <= j < s.len() {
        (s.subrange(0, j), s.subrange(j + 1, s.len() as int))
    } else {
        (s, Seq::empty())
    }
}

/// Prepends parsed entries to a parse result, keeping failure.
pub open spec fn opt_prepend(
    m: Seq<(Seq<char>, Seq<char>)>,
    o: Option<Seq<(Seq<char>, Seq<char>)>>,
) -> Option<Seq<(Seq<char>, Seq<char>)>> {
    match o {
        Some(t) => Some(m + t),
        None => None,
    }
}

/// What manifest text parses to: each line split at its first space into
/// a (path, digest) pair, rejecting a line without a space. A trailing
/// newline leaves no extra entry.
pub open spec fn spec_parse_manifest(s: Seq<char>) -> Option<Seq<(Seq<char>, Seq<char>)>>
    decreases s.len(),
{
    if s.len() == 0 {
        Some(Seq::empty())
    } else {
        let (line, rest) = split_first_line(s);
        let k = char_index(line, ' ');
        if k == line.len() {
            None
        } else {
            opt_prepend(
                seq![(line.subrange(0, k), line.subrange(k + 1, line.len() as int))],
                spec_parse_manifest(rest),
            )
        }
    }
}

/// The text of one manifest entry: path, space, digest, newline.
pub open spec fn entry_line(p: Seq<char>, h: Seq<char>) -> Seq<char> {
    p + seq![' '] + h + seq!['\n']
}

/// The manifest text for a sequence of (path, digest) pairs.
pub open spec fn spec_manifest_text(m: Seq<(Seq<char>, Seq<char>)>) -> Seq<char>
    decreases m.len(),
{
    if m.len() == 0 {
        Seq::empty()
    } else {
        entry_line(m[0].0, m[0].1) + spec_manifest_text(m.drop_first())
    }
}

/// Appending one pair appends exactly its line.
pub proof fn lemma_manifest_text_snoc(m: Seq<(Seq<char>, Seq<char>)>, p: Seq<char>, h: Seq<char>)
    ensures
        spec_manifest_text(m.push((p, h))) =~= spec_manifest_text(m) + entry_line(p, h),
    decreases m.len(),
{
    let one = m.push((p, h));
    if m.len() == 0 {
        assert(one.drop_first() =~= Seq::<(Seq<char>, Seq<char>)>::empty());
        assert(one[0] == (p, h));
        assert(spec_manifest_text(one) == entry_line(p, h) + spec_manifest_text(
            one.drop_first(),
        ));
    } else {
        assert(one.drop_first() =~= m.drop_first().push((p, h)));
        lemma_manifest_text_snoc(m.drop_first(), p, h);
        assert(one[0] == m[0]);
        assert(spec_manifest_text(one) == entry_line(m[0].0, m[0].1) + spec_manifest_text(
            m.drop_first().push((p, h)),
        ));
    }
}

/// Parsing the manifest text of well-formed entries recovers exactly the
/// entries, in order.
pub proof fn lemma_manifest_round_trip(m: Seq<(Seq<char>, Seq<char>)>)
    requires
        forall|i: int| 0 <= i < m.len() ==> wf_path(#[trigger] m[i].0) && wf_digest(m[i].1),
    ensures
        spec_parse_manifest(spec_manifest_text(m)) == Some(m),
    decreases m.len(),
{
    if m.len() == 0 {
    } else {
        let p = m[0].0;
        let h = m[0].1;
        let line = p + seq![' '] + h;
        let text = spec_manifest_text(m);
        let rest_text = spec_manifest_text(m.drop_first());
        assert(text =~= line + seq!['\n'] + rest_text);
        assert forall|mm: int| 0 <= mm < line.len() implies line[mm] != '\n' by {
            if mm < p.len() {
                assert(line[mm] == p[mm]);
            } else if mm > p.len() {
                assert(line[mm] == h[mm - p.len() - 1]);
            }
        }
        assert(text[line.len() as int] == '\n');
        lemma_char_index_is(text, '\n', line.len() as int);
        assert(text.subrange(0, line.len() as int) =~= line);
        assert(text.subrange(line.len() as int + 1, text.len() as int) =~= rest_text);
        assert forall|mm: int| 0 <= mm < p.len() implies line[mm] != ' ' by {
            assert(line[mm] == p[mm]);
        }
        assert(line[p.len() as int] == ' ');
        lemma_char_index_is(line, ' ', p.len() as int);
        assert(line.subrange(0, p.len() as int) =~= p);
        assert(line.subrange(p.len() as int + 1, line.len() as int) =~= h);
        assert(forall|i: int|
            0 <= i < m.drop_first().len() ==> wf_path(#[trigger] m.drop_first()[i].0) && wf_digest(
                m.drop_first()[i].1,
            ));
        lemma_manifest_round_trip(m.drop_first());
        assert(seq![(p, h)] + m.drop_first() =~= m);
    }
}

/// Builds the `GiveHashes` body text for a list of entries.
pub fn format_manifest(files: &Vec<HashedFile>) -> (r: String)
    ensures
        r@ == spec_manifest_text(manifest_model(files@)),
{
    let mut out = String::new();
    let mut i: usize = 0;
    while i < files.len()
        invariant
            i <= files@.len(),
            out@ == spec_manifest_text(manifest_model(files@.subrange(0, i as int))),
        decreases files@.len() - i,
    {
        let f = &files[i];
        out.append(f.path.as_str());
        out.append(" ");
        out.append(f.hash.as_str());
        out.append("\n");
        proof {
            reveal_strlit(" ");
            reveal_strlit("\n");
            assert(" "@ =~= seq![' ']);
            assert("\n"@ =~= seq!['\n']);
            let prefix = manifest_model(files@.subrange(0, i as int));
            lemma_manifest_text_snoc(prefix, files@[i as int].path@, files@[i as int].hash@);
            assert(manifest_model(files@.subrange(0, i + 1)) =~= prefix.push(
                (files@[i as int].path@, files@[i as int].hash@),
            ));
            assert(out@ =~= spec_manifest_text(manifest_model(files@.subrange(0, i + 1))));
        }
        i = i + 1;
    }
    proof {
        assert(files@.subrange(0, files@.len() as int) =~= files@);
    }
    out
}

/// Parses a `GiveHashes` body into its entries.
///
/// Succeeds exactly when every line (after dropping a trailing newline)
/// holds a space; a malformed body is rejected as an invalid frame.
pub fn parse_manifest(body: &str) -> (r: Result<Vec<HashedFile>, RepairError>)
    ensures
        r matches Ok(files) ==> spec_parse_manifest(body@) == Some(manifest_model(files@)),
        r is Ok <==> spec_parse_manifest(body@) is Some,
        r matches Err(e) ==> e == RepairError::InvalidFrame,
{
    let ln = body.unicode_len();
    let mut files: Vec<HashedFile> = Vec::new();
    let mut i: usize = 0;
    proof {
        assert(body@.subrange(0, ln as int) =~= body@);
        assert(manifest_model(files@) =~= Seq::<(Seq<char>, Seq<char>)>::empty());
        let o = spec_parse_manifest(body@);
        if o is Some {
            assert(Seq::<(Seq<char>, Seq<char>)>::empty() + o->Some_0 =~= o->Some_0);
        }
    }
    while i < ln
        invariant
            i <= ln,
            ln == body@.len(),
            spec_parse_manifest(body@) == opt_prepend(
                manifest_model(files@),
                spec_parse_manifest(body@.subrange(i as int, ln as int)),
            ),
        decreases ln - i,
    {
        let ghost suffix = body@.subrange(i as int, ln as int);
        let mut j: usize = i;
        while j < ln && body.get_char(j) != '\n'
            invariant
                i <= j <= ln,
                ln == body@.len(),
                forall|m: int| i <= m < j ==> body@[m] != '\n',
            decreases ln - j,
        {
            j = j + 1;
        }
        let mut k: usize = i;
        while k < j && body.get_char(k) != ' '
            invariant
                i <= k <= j <= ln,
                ln == body@.len(),
                forall|m: int| i <= m < j ==> body@[m] != '\n',
                j < ln ==> body@[j as int] == '\n',
                forall|m: int| i <= m < k ==> body@[m] != ' ',
            decreases j - k,
        {
            k = k + 1;
        }
        proof {
            assert forall|m: int| 0 <= m < j - i implies suffix[m] != '\n' by {
                assert(suffix[m] == body@[i + m]);
            }
            if j < ln {
                assert(suffix[j - i] == body@[j as int]);
            }
            lemma_char_index_is(suffix, '\n', j - i);
        }
        let ghost line = if j < ln {
            suffix.subrange(0, j - i)
        } else {
            suffix
        };
        let ghost rest = if j < ln {
            suffix.subrange(j - i + 1, suffix.len() as int)
        } else {
            Seq::<char>::empty()
        };
        proof {
            assert(split_first_line(suffix) == (line, rest));
            if j == ln {
                assert(line =~= suffix.subrange(0, j - i));
            }
            assert forall|m: int| 0 <= m < k - i implies line[m] != ' ' by {
                assert(line[m] == body@[i + m]);
            }
            if k < j {
                assert(line[k - i] == body@[k as int]);
            }
            lemma_char_index_is(line, ' ', k - i);
        }
        if k == j {
            proof {
                assert(spec_parse_manifest(suffix) is None);
            }
            return Err(RepairError::InvalidFrame);
        }
        let path = String::from_str(body.substring_char(i, k));
        let hash = String::from_str(body.substring_char(k + 1, j));
        proof {
            assert(path@ =~= line.subrange(0, k - i));
            assert(hash@ =~= line.subrange(k - i + 1, line.len() as int));
        }
        let entry = HashedFile { path, hash };
        let ghost old_files = files@;
        files.push(entry);
        let next = if j == ln {
            ln
        } else {
            j + 1
        };
        proof {
            let pair = (line.subrange(0, (k - i) as int), line.subrange(
                k - i + 1,
                line.len() as int,
            ));
            assert(spec_parse_manifest(suffix) == opt_prepend(
                seq![pair],
                spec_parse_manifest(rest),
            ));
            assert(rest =~= body@.subrange(next as int, ln as int));
            assert(manifest_model(files@) =~= manifest_model(old_files).push(pair));
            match spec_parse_manifest(rest) {
                Some(t) => {
                    assert(manifest_model(old_files) + (seq![pair] + t) =~= manifest_model(
                        files@,
                    ) + t);
                },
                None => {},
            }
        }
        i = next;
    }
    proof {
        assert(body@.subrange(ln as int, ln as int) =~= Seq::<char>::empty());
        assert(manifest_model(files@) + Seq::<(Seq<char>, Seq<char>)>::empty() =~= manifest_model(
            files@,
        ));
    }
    Ok(files)
}

/// The mathematical content of a list of paths.
pub open spec fn path_list_model(paths: Seq<String>) -> Seq<Seq<char>> {
    paths.map_values(|p: String| p@)
}

/// What a `GetFiles` body parses to: one path per line; a trailing
/// newline adds nothing.
pub open spec fn spec_parse_path_list(s: Seq<char>) -> Seq<Seq<char>>
    decreases s.len(),
{
    if s.len() == 0 {
        Seq::empty()
    } else {
        let (line, rest) = split_first_line(s);
        seq![line] + spec_parse_path_list(rest)
    }
}

/// The `GetFiles` body text for a list of paths: each path followed by a
/// newline.
pub open spec fn spec_path_list_text(paths: Seq<Seq<char>>) -> Seq<char>
    decreases paths.len(),
{
    if paths.len() == 0 {
        Seq::empty()
    } else {
        paths[0] + seq!['\n'] + spec_path_list_text(paths.drop_first())
    }
}

/// Appending one path appends exactly its line.
pub proof fn lemma_path_list_text_snoc(paths: Seq<Seq<char>>, p: Seq<char>)
    ensures
        spec_path_list_text(paths.push(p)) =~= spec_path_list_text(paths) + p + seq!['\n'],
    decreases paths.len(),
{
    let one = paths.push(p);
    if paths.len() == 0 {
        assert(one.drop_first() =~= Seq::<Seq<char>>::empty());
        assert(one[0] == p);
        assert(spec_path_list_text(one) == p + seq!['\n'] + spec_path_list_text(
            one.drop_first(),
        ));
    } else {
        assert(one.drop_first() =~= paths.drop_first().push(p));
        lemma_path_list_text_snoc(paths.drop_first(), p);
        assert(one[0] == paths[0]);
        assert(spec_path_list_text(one) == paths[0] + seq!['\n'] + spec_path_list_text(
            paths.drop_first().push(p),
        ));
    }
}

/// Parsing the path-list text of newline-free paths recovers exactly the
/// paths, in order.
pub proof fn lemma_path_list_round_trip(paths: Seq<Seq<char>>)
    requires
        forall|i: int, j: int|
            0 <= i < paths.len() && 0 <= j < paths[i].len() ==> #[trigger] paths[i][j] != '\n',
    ensures
        spec_parse_path_list(spec_path_list_text(paths)) == paths,
    decreases paths.len(),
{
    if paths.len() == 0 {
    } else {
        let p = paths[0];
        let text = spec_path_list_text(paths);
        let rest_text = spec_path_list_text(paths.drop_first());
        assert(text =~= p + seq!['\n'] + rest_text);
        assert forall|mm: int| 0 <= mm < p.len() implies text[mm] != '\n' by {
            assert(text[mm] == p[mm]);
        }
        assert(text[p.len() as int] == '\n');
        lemma_char_index_is(text, '\n', p.len() as int);
        assert(text.subrange(0, p.len() as int) =~= p);
        assert(text.subrange(p.len() as int + 1, text.len() as int) =~= rest_text);
        assert(forall|i: int, j: int|
            0 <= i < paths.drop_first().len() && 0 <= j < paths.drop_first()[i].len()
                ==> #[trigger] paths.drop_first()[i][j] != '\n');
        lemma_path_list_round_trip(paths.drop_first());
        assert(seq![p] + paths.drop_first() =~= paths);
    }
}

/// Builds the `GetFiles` body text for a list of paths.
pub fn format_path_list(paths: &Vec<String>) -> (r: String)
    ensures
        r@ == spec_path_list_text(path_list_model(paths@)),
{
    let mut out = String::new();
    let mut i: usize = 0;
    while i < paths.len()
        invariant
            i <= paths@.len(),
            out@ == spec_path_list_text(path_list_model(paths@.subrange(0, i as int))),
        decreases paths@.len() - i,
    {
        out.append(paths[i].as_str());
        out.append("\n");
        proof {
            reveal_strlit("\n");
            assert("\n"@ =~= seq!['\n']);
            let prefix = path_list_model(paths@.subrange(0, i as int));
            lemma_path_list_text_snoc(prefix, paths@[i as int]@);
            assert(path_list_model(paths@.subrange(0, i + 1)) =~= prefix.push(
                paths@[i as int]@,
            ));
            assert(out@ =~= spec_path_list_text(path_list_model(paths@.subrange(0, i + 1))));
        }
        i = i + 1;
    }
    proof {
        assert(paths@.subrange(0, paths@.len() as int) =~= paths@);
    }
    out
}

/// Splits a `GetFiles` body into the requested paths.
pub fn parse_path_list(body: &str) -> (r: Vec<String>)
    ensures
        path_list_model(r@) == spec_parse_path_list(body@),
{
    let ln = body.unicode_len();
    let mut paths: Vec<String> = Vec::new();
    let mut i: usize = 0;
    proof {
        assert(body@.subrange(0, ln as int) =~= body@);
        assert(path_list_model(paths@) =~= Seq::<Seq<char>>::empty());
        assert(Seq::<Seq<char>>::empty() + spec_parse_path_list(body@) =~= spec_parse_path_list(
            body@,
        ));
    }
    while i < ln
        invariant
            i <= ln,
            ln == body@.len(),
            spec_parse_path_list(body@) == path_list_model(paths@) + spec_parse_path_list(
                body@.subrange(i as int, ln as int),
            ),
        decreases ln - i,
    {
        let ghost suffix = body@.subrange(i as int, ln as int);
        let mut j: usize = i;
        while j < ln && body.get_char(j) != '\n'
            invariant
                i <= j <= ln,
                ln == body@.len(),
                forall|m: int| i <= m < j ==> body@[m] != '\n',
            decreases ln - j,
        {
            j = j + 1;
        }
        proof {
            assert forall|m: int| 0 <= m < j - i implies suffix[m] != '\n' by {
                assert(suffix[m] == body@[i + m]);
            }
            if j < ln {
                assert(suffix[j - i] == body@[j as int]);
            }
            lemma_char_index_is(suffix, '\n', j - i);
        }
        let ghost line = if j < ln {
            suffix.subrange(0, j - i)
        } else {
            suffix
        };
        let ghost rest = if j < ln {
            suffix.subrange(j - i + 1, suffix.len() as int)
        } else {
            Seq::<char>::empty()
        };
        proof {
            assert(split_first_line(suffix) == (line, rest));
            if j == ln {
                assert(line =~= suffix.subrange(0, j - i));
            }
        }
        let p = String::from_str(body.substring_char(i, j));
        proof {
            assert(p@ =~= line);
        }
        let ghost old_paths = paths@;
        paths.push(p);
        let next = if j == ln {
            ln
        } else {
            j + 1
        };
        proof {
            assert(spec_parse_path_list(suffix) == seq![line] + spec_parse_path_list(rest));
            assert(rest =~= body@.subrange(next as int, ln as int));
            assert(path_list_model(paths@) =~= path_list_model(old_paths).push(line));
            assert(path_list_model(old_paths) + (seq![line] + spec_parse_path_list(rest))
                =~= path_list_model(paths@) + spec_parse_path_list(rest));
        }
        i = next;
    }
    proof {
        assert(body@.subrange(ln as int, ln as int) =~= Seq::<char>::empty());
        assert(path_list_model(paths@) + Seq::<Seq<char>>::empty() =~= path_list_model(paths@));
    }
    paths
}

} // verus!
