use vstd::prelude::*;

use crate::foreign::{lossy_of, rx_compiles, rx_find, decode_lossy, regex_ci_compiles, regex_ci_find};
use crate::text::{
    ci_find, ends_with, ends_with_bytes, find_ci, lemma_ci_first_match_case_insensitive,
    lower_seq, opt_index, split_lines, split_lines_vec, strip_stars, strip_stars_vec, take_chars,
    trim_bytes, trim_spec, truncate_chars, views_of, bytes_eq, copy_range,
};
use crate::{is_binary, spec_is_binary};

verus! {

/// One candidate file handed to the search by the directory walk: the
/// components of its full path, the full path itself, the path relative to
/// the workspace root, and its bytes (`None` when the file could not be
/// read, in which case only its name can match).
pub struct FileEntry {
    /// Every component of the file's full path, the file's own name included.
    pub components: Vec<Vec<u8>>,
    /// The full path as one string of bytes.
    pub full_path: Vec<u8>,
    /// The path relative to the workspace root.
    pub rel_path: Vec<u8>,
    /// The file's raw bytes; `None` when reading failed.
    pub content: Option<Vec<u8>>,
}

/// One search hit: the relative path, a 1-based line and column, and a
/// preview of the matching line.
pub struct SearchResult {
    /// Path relative to the workspace root.
    pub file: Vec<u8>,
    /// 1-based line of the hit; 1 for a filename hit.
    pub line: usize,
    /// 1-based byte column of the hit; 1 for a filename hit.
    pub column: usize,
    /// The matching line, trimmed and truncated; for a filename hit, the
    /// marked relative path.
    pub preview: Vec<u8>,
}

/// The mathematical image of one search hit.
#[verifier::ext_equal]
pub struct MatchRec {
    /// Path relative to the workspace root.
    pub file: Seq<u8>,
    /// 1-based line number.
    pub line: int,
    /// 1-based byte column.
    pub column: int,
    /// Preview text.
    pub preview: Seq<u8>,
}

impl View for SearchResult {
    type V = MatchRec;

    open spec fn view(&self) -> MatchRec {
        MatchRec {
            file: self.file@,
            line: self.line as int,
            column: self.column as int,
            preview: self.preview@,
        }
    }
}

/// The views of a sequence of search results.
pub open spec fn recs_of(v: Seq<SearchResult>) -> Seq<MatchRec> {
    Seq::new(v.len(), |i: int| v[i]@)
}

/// The bytes of `.git`.
pub open spec fn name_git() -> Seq<u8> {
    seq![46u8, 103u8, 105u8, 116u8]
}

/// The bytes of `node_modules`.
pub open spec fn name_node_modules() -> Seq<u8> {
    seq![110u8, 111u8, 100u8, 101u8, 95u8, 109u8, 111u8, 100u8, 117u8, 108u8, 101u8, 115u8]
}

/// The bytes of `target`.
pub open spec fn name_target() -> Seq<u8> {
    seq![116u8, 97u8, 114u8, 103u8, 101u8, 116u8]
}

/// The bytes of `dist`.
pub open spec fn name_dist() -> Seq<u8> {
    seq![100u8, 105u8, 115u8, 116u8]
}

/// The bytes of `codeedit`, the tool's own metadata directory.
pub open spec fn name_codeedit() -> Seq<u8> {
    seq![99u8, 111u8, 100u8, 101u8, 101u8, 100u8, 105u8, 116u8]
}

/// A path component's exact name is in the exclusion set.
pub open spec fn excluded_name(n: Seq<u8>) -> bool {
    ||| n == name_git()
    ||| n == name_node_modules()
    ||| n == name_target()
    ||| n == name_dist()
    ||| n == name_codeedit()
}

/// A path is excluded when any single component's exact name is in the
/// exclusion set; names are never matched against substrings of the whole
/// path.
pub open spec fn path_excluded(components: Seq<Seq<u8>>) -> bool {
    exists|i: int| 0 <= i < components.len() && excluded_name(components[i])
}

fn is_excluded_name(name: &Vec<u8>) -> (r: bool)
    ensures
        r == excluded_name(name@),
{
    let git: Vec<u8> = vec![46u8, 103u8, 105u8, 116u8];
    let node: Vec<u8> = vec![
        110u8, 111u8, 100u8, 101u8, 95u8, 109u8, 111u8, 100u8, 117u8, 108u8, 101u8, 115u8,
    ];
    let tgt: Vec<u8> = vec![116u8, 97u8, 114u8, 103u8, 101u8, 116u8];
    let dist: Vec<u8> = vec![100u8, 105u8, 115u8, 116u8];
    let meta: Vec<u8> = vec![99u8, 111u8, 100u8, 101u8, 101u8, 100u8, 105u8, 116u8];
    proof {
        assert(git@ =~~= name_git());
        assert(node@ =~~= name_node_modules());
        assert(tgt@ =~~= name_target());
        assert(dist@ =~~= name_dist());
        assert(meta@ =~~= name_codeedit());
    }
    bytes_eq(name, &git) || bytes_eq(name, &node) || bytes_eq(name, &tgt) || bytes_eq(name, &dist)
        || bytes_eq(name, &meta)
}

fn entry_excluded(components: &Vec<Vec<u8>>) -> (r: bool)
    ensures
        r == path_excluded(views_of(components@)),
{
    let mut i: usize = 0;
    while i < components.len()
        invariant
            i <= components@.len(),
            forall|j: int| 0 <= j < i ==> !excluded_name(views_of(components@)[j]),
        decreases components@.len() - i,
    {
        if is_excluded_name(&components[i]) {
            assert(views_of(components@)[i as int] == components@[i as int]@);
            return true;
        }
        i += 1;
    }
    false
}

/// The column-producing match of the query against one piece of text: in
/// regex mode the first match of the case-insensitive expression, otherwise
/// the first case-insensitive occurrence of the query as a substring.
pub open spec fn find_in(hay: Seq<u8>, query: Seq<u8>, use_regex: bool) -> Option<int> {
    if use_regex {
        match rx_find(query, hay) {
            Some(u) => Some(u as int),
            None => None,
        }
    } else {
        ci_find(hay, query)
    }
}

/// The query matches somewhere in the given text.
pub open spec fn hits(hay: Seq<u8>, query: Seq<u8>, use_regex: bool) -> bool {
    find_in(hay, query, use_regex) is Some
}

fn match_query(hay: &Vec<u8>, query: &Vec<u8>, use_regex: bool) -> (r: Option<usize>)
    requires
        query@.len() > 0,
        use_regex ==> rx_compiles(query@),
    ensures
        opt_index(r) == find_in(hay@, query@, use_regex),
        r matches Some(i) ==> i < usize::MAX,
{
    if use_regex {
        regex_ci_find(query, hay)
    } else {
        find_ci(hay, query)
    }
}

/// The preview marker of a filename hit: the bytes of `FILENAME MATCH: `.
pub open spec fn fm_prefix() -> Seq<u8> {
    seq![
        70u8, 73u8, 76u8, 69u8, 78u8, 65u8, 77u8, 69u8, 32u8, 77u8, 65u8, 84u8, 67u8, 72u8, 58u8,
        32u8,
    ]
}

fn fm_preview(rel: &Vec<u8>) -> (r: Vec<u8>)
    ensures
        r@ == fm_prefix() + rel@,
{
    let mut r: Vec<u8> = vec![
        70u8, 73u8, 76u8, 69u8, 78u8, 65u8, 77u8, 69u8, 32u8, 77u8, 65u8, 84u8, 67u8, 72u8, 58u8,
        32u8,
    ];
    proof {
        assert(r@ =~~= fm_prefix());
    }
    let mut k: usize = 0;
    while k < rel.len()
        invariant
            k <= rel@.len(),
            r@ =~~= fm_prefix() + rel@.take(k as int),
        decreases rel@.len() - k,
    {
        r.push(rel[k]);
        proof {
            assert(r@ =~~= fm_prefix() + rel@.take(k + 1));
        }
        k += 1;
    }
    proof {
        assert(rel@.take(rel@.len() as int) =~~= rel@);
    }
    r
}

fn clone_bytes(s: &Vec<u8>) -> (r: Vec<u8>)
    ensures
        r@ == s@,
{
    let n: usize = s.len();
    copy_range(s, 0, n)
}

/// The hit a matching filename contributes: line 1, column 1, and the marked
/// relative path as preview.
pub open spec fn filename_recs(e: FileEntry, query: Seq<u8>, use_regex: bool) -> Seq<MatchRec> {
    if hits(e.rel_path@, query, use_regex) {
        seq![
            MatchRec {
                file: e.rel_path@,
                line: 1,
                column: 1,
                preview: fm_prefix() + e.rel_path@,
            },
        ]
    } else {
        seq![]
    }
}

/// The hit a matching line contributes: its 1-based line number, the 1-based
/// byte column of the match, and the line trimmed of whitespace and truncated
/// to 200 characters as preview.
pub open spec fn line_rec(file: Seq<u8>, lineno: int, line: Seq<u8>, col: int) -> MatchRec {
    MatchRec { file, line: lineno, column: col + 1, preview: take_chars(trim_spec(line), 200) }
}

/// The hits of the lines `lines`, numbered from `base` on.
pub open spec fn line_recs(
    file: Seq<u8>,
    lines: Seq<Seq<u8>>,
    base: int,
    query: Seq<u8>,
    use_regex: bool,
) -> Seq<MatchRec>
    decreases lines.len(),
{
    if lines.len() == 0 {
        seq![]
    } else {
        (match find_in(lines[0], query, use_regex) {
            Some(c) => seq![line_rec(file, base, lines[0], c)],
            None => seq![],
        }) + line_recs(file, lines.drop_first(), base + 1, query, use_regex)
    }
}

/// The hits of a file's content: none when the file was unreadable or is
/// binary, otherwise the hits of the lines of its lossily decoded text.
pub open spec fn content_recs(e: FileEntry, query: Seq<u8>, use_regex: bool) -> Seq<MatchRec> {
    match e.content {
        None => seq![],
        Some(c) => if spec_is_binary(c@) {
            seq![]
        } else {
            line_recs(e.rel_path@, split_lines(lossy_of(c@)), 1, query, use_regex)
        },
    }
}

/// A candidate file takes part in the search: no component of its path is
/// excluded, and its full path ends with the glob suffix when one is set.
pub open spec fn entry_passes(e: FileEntry, suffix: Option<Seq<u8>>) -> bool {
    &&& !path_excluded(views_of(e.components@))
    &&& match suffix {
        Some(g) => ends_with(e.full_path@, g),
        None => true,
    }
}

/// Everything one candidate file contributes: first its filename hit, then
/// its content hits, or nothing when the file is filtered away.
pub open spec fn file_recs(
    e: FileEntry,
    query: Seq<u8>,
    use_regex: bool,
    suffix: Option<Seq<u8>>,
) -> Seq<MatchRec> {
    if entry_passes(e, suffix) {
        filename_recs(e, query, use_regex) + content_recs(e, query, use_regex)
    } else {
        seq![]
    }
}

/// Everything the files contribute, in traversal order.
pub open spec fn all_recs(
    files: Seq<FileEntry>,
    query: Seq<u8>,
    use_regex: bool,
    suffix: Option<Seq<u8>>,
) -> Seq<MatchRec>
    decreases files.len(),
{
    if files.len() == 0 {
        seq![]
    } else {
        file_recs(files[0], query, use_regex, suffix) + all_recs(
            files.drop_first(),
            query,
            use_regex,
            suffix,
        )
    }
}

/// The glob argument reduced to a literal suffix: every leading `*` is
/// stripped and the remainder filters by suffix alone.
pub open spec fn spec_suffix(glob: Option<Seq<u8>>) -> Option<Seq<u8>> {
    match glob {
        Some(g) => Some(strip_stars(g)),
        None => None,
    }
}

/// The view of the optional glob argument.
pub open spec fn glob_view(glob: Option<&Vec<u8>>) -> Option<Seq<u8>> {
    match glob {
        Some(g) => Some(g@),
        None => None,
    }
}

/// The view of the optional stripped suffix.
pub open spec fn suffix_view(suffix: Option<Vec<u8>>) -> Option<Seq<u8>> {
    match suffix {
        Some(g) => Some(g@),
        None => None,
    }
}

/// Everything the search would produce before the result cap: nothing when a
/// regex query does not compile, otherwise the files' hits in order.
pub open spec fn search_spec(
    files: Seq<FileEntry>,
    query: Seq<u8>,
    use_regex: bool,
    glob: Option<Seq<u8>>,
) -> Seq<MatchRec> {
    if use_regex && !rx_compiles(query) {
        seq![]
    } else {
        all_recs(files, query, use_regex, spec_suffix(glob))
    }
}

/// The result cap: accumulation stops as soon as the running count exceeds
/// 2000, so at most 2001 hits come back.
pub open spec fn cap_results(full: Seq<MatchRec>) -> Seq<MatchRec> {
    if full.len() <= 2001 {
        full
    } else {
        full.take(2001)
    }
}

proof fn lemma_all_recs_push(
    s: Seq<FileEntry>,
    x: FileEntry,
    query: Seq<u8>,
    use_regex: bool,
    suffix: Option<Seq<u8>>,
)
    ensures
        all_recs(s.push(x), query, use_regex, suffix) == all_recs(s, query, use_regex, suffix)
            + file_recs(x, query, use_regex, suffix),
    decreases s.len(),
{
    if s.len() == 0 {
        assert(s.push(x)[0] == x);
        assert(s.push(x).drop_first() =~~= Seq::<FileEntry>::empty());
        assert(all_recs(s.push(x).drop_first(), query, use_regex, suffix) == Seq::<
            MatchRec,
        >::empty());
        assert(all_recs(s, query, use_regex, suffix) == Seq::<MatchRec>::empty());
        assert(all_recs(s.push(x), query, use_regex, suffix) =~~= all_recs(
            s,
            query,
            use_regex,
            suffix,
        ) + file_recs(x, query, use_regex, suffix));
    } else {
        assert(s.push(x)[0] == s[0]);
        assert(s.push(x).drop_first() =~~= s.drop_first().push(x));
        lemma_all_recs_push(s.drop_first(), x, query, use_regex, suffix);
        assert(all_recs(s.push(x), query, use_regex, suffix) == file_recs(
            s[0],
            query,
            use_regex,
            suffix,
        ) + all_recs(s.drop_first().push(x), query, use_regex, suffix));
        assert(all_recs(s, query, use_regex, suffix) == file_recs(s[0], query, use_regex, suffix)
            + all_recs(s.drop_first(), query, use_regex, suffix));
        assert(all_recs(s.push(x), query, use_regex, suffix) =~~= all_recs(
            s,
            query,
            use_regex,
            suffix,
        ) + file_recs(x, query, use_regex, suffix));
    }
}

proof fn lemma_all_recs_split(
    files: Seq<FileEntry>,
    i: int,
    query: Seq<u8>,
    use_regex: bool,
    suffix: Option<Seq<u8>>,
)
    requires
        0 <= i <= files.len(),
    ensures
        all_recs(files, query, use_regex, suffix) == all_recs(
            files.take(i),
            query,
            use_regex,
            suffix,
        ) + all_recs(files.skip(i), query, use_regex, suffix),
    decreases i,
{
    if i == 0 {
        assert(files.take(0) =~~= Seq::<FileEntry>::empty());
        assert(files.skip(0) =~~= files);
        assert(all_recs(files, query, use_regex, suffix) =~~= all_recs(
            files.take(0),
            query,
            use_regex,
            suffix,
        ) + all_recs(files.skip(0), query, use_regex, suffix));
    } else {
        assert(files.len() > 0);
        lemma_all_recs_split(files.drop_first(), i - 1, query, use_regex, suffix);
        assert(files.take(i)[0] == files[0]);
        assert(files.take(i).drop_first() =~~= files.drop_first().take(i - 1));
        assert(files.skip(i) =~~= files.drop_first().skip(i - 1));
        assert(all_recs(files, query, use_regex, suffix) =~~= all_recs(
            files.take(i),
            query,
            use_regex,
            suffix,
        ) + all_recs(files.skip(i), query, use_regex, suffix));
    }
}

proof fn lemma_line_recs_push(
    file: Seq<u8>,
    lines: Seq<Seq<u8>>,
    x: Seq<u8>,
    base: int,
    query: Seq<u8>,
    use_regex: bool,
)
    ensures
        line_recs(file, lines.push(x), base, query, use_regex) == line_recs(
            file,
            lines,
            base,
            query,
            use_regex,
        ) + (match find_in(x, query, use_regex) {
            Some(c) => seq![line_rec(file, base + lines.len(), x, c)],
            None => seq![],
        }),
    decreases lines.len(),
{
    if lines.len() == 0 {
        assert(lines.push(x)[0] == x);
        assert(lines.push(x).drop_first() =~~= Seq::<Seq<u8>>::empty());
        assert(line_recs(file, lines.push(x).drop_first(), base + 1, query, use_regex) == Seq::<
            MatchRec,
        >::empty());
        assert(line_recs(file, lines, base, query, use_regex) == Seq::<MatchRec>::empty());
        assert(line_recs(file, lines.push(x), base, query, use_regex) =~~= line_recs(
            file,
            lines,
            base,
            query,
            use_regex,
        ) + (match find_in(x, query, use_regex) {
            Some(c) => seq![line_rec(file, base + lines.len(), x, c)],
            None => seq![],
        }));
    } else {
        assert(lines.push(x)[0] == lines[0]);
        assert(lines.push(x).drop_first() =~~= lines.drop_first().push(x));
        lemma_line_recs_push(file, lines.drop_first(), x, base + 1, query, use_regex);
        assert(line_recs(file, lines.push(x), base, query, use_regex) == (match find_in(
            lines[0],
            query,
            use_regex,
        ) {
            Some(c) => seq![line_rec(file, base, lines[0], c)],
            None => seq![],
        }) + line_recs(file, lines.drop_first().push(x), base + 1, query, use_regex));
        assert(line_recs(file, lines, base, query, use_regex) == (match find_in(
            lines[0],
            query,
            use_regex,
        ) {
            Some(c) => seq![line_rec(file, base, lines[0], c)],
            None => seq![],
        }) + line_recs(file, lines.drop_first(), base + 1, query, use_regex));
        assert(line_recs(file, lines.push(x), base, query, use_regex) =~~= line_recs(
            file,
            lines,
            base,
            query,
            use_regex,
        ) + (match find_in(x, query, use_regex) {
            Some(c) => seq![line_rec(file, base + lines.len(), x, c)],
            None => seq![],
        }));
    }
}

proof fn lemma_line_recs_split(
    file: Seq<u8>,
    lines: Seq<Seq<u8>>,
    i: int,
    base: int,
    query: Seq<u8>,
    use_regex: bool,
)
    requires
        0 <= i <= lines.len(),
    ensures
        line_recs(file, lines, base, query, use_regex) == line_recs(
            file,
            lines.take(i),
            base,
            query,
            use_regex,
        ) + line_recs(file, lines.skip(i), base + i, query, use_regex),
    decreases i,
{
    if i == 0 {
        assert(lines.take(0) =~~= Seq::<Seq<u8>>::empty());
        assert(lines.skip(0) =~~= lines);
        assert(line_recs(file, lines, base, query, use_regex) =~~= line_recs(
            file,
            lines.take(0),
            base,
            query,
            use_regex,
        ) + line_recs(file, lines.skip(0), base, query, use_regex));
    } else {
        lemma_line_recs_split(file, lines.drop_first(), i - 1, base + 1, query, use_regex);
        assert(lines.take(i)[0] == lines[0]);
        assert(lines.take(i).drop_first() =~~= lines.drop_first().take(i - 1));
        assert(lines.skip(i) =~~= lines.drop_first().skip(i - 1));
        assert(line_recs(file, lines, base, query, use_regex) =~~= line_recs(
            file,
            lines.take(i),
            base,
            query,
            use_regex,
        ) + line_recs(file, lines.skip(i), base + i, query, use_regex));
    }
}

fn append_file_matches(
    out: Vec<SearchResult>,
    e: &FileEntry,
    query: &Vec<u8>,
    use_regex: bool,
    suffix: &Option<Vec<u8>>,
) -> (r: Vec<SearchResult>)
    requires
        query@.len() > 0,
        use_regex ==> rx_compiles(query@),
        out@.len() <= 2000,
    ensures
        recs_of(r@) == cap_results(
            recs_of(out@) + file_recs(*e, query@, use_regex, suffix_view(*suffix)),
        ),
        r@.len() <= 2001,
{
    let ghost base = recs_of(out@);
    let ghost frecs = file_recs(*e, query@, use_regex, suffix_view(*suffix));
    let mut out = out;
    let excluded = entry_excluded(&e.components);
    let suffix_ok = match suffix {
        Some(sv) => ends_with_bytes(&e.full_path, sv),
        None => true,
    };
    if excluded || !suffix_ok {
        proof {
            assert(!entry_passes(*e, suffix_view(*suffix)));
            assert(frecs =~~= Seq::<MatchRec>::empty());
            assert(base + frecs =~~= base);
        }
        return out;
    }
    assert(entry_passes(*e, suffix_view(*suffix)));
    let ghost fname = filename_recs(*e, query@, use_regex);
    let fcol = match_query(&e.rel_path, query, use_regex);
    if fcol.is_some() {
        let preview = fm_preview(&e.rel_path);
        let sr = SearchResult { file: clone_bytes(&e.rel_path), line: 1, column: 1, preview };
        proof {
            assert(sr@ =~~= fname[0]);
        }
        out.push(sr);
        proof {
            assert(recs_of(out@) =~~= base + fname);
        }
    } else {
        proof {
            assert(fname =~~= Seq::<MatchRec>::empty());
            assert(recs_of(out@) =~~= base + fname);
        }
    }
    let ghost crecs = content_recs(*e, query@, use_regex);
    match &e.content {
        None => {
            proof {
                assert(crecs =~~= Seq::<MatchRec>::empty());
                assert(frecs =~~= fname + crecs);
                assert(base + fname =~~= base + frecs);
                assert(recs_of(out@).len() <= 2001);
                assert(recs_of(out@) =~~= cap_results(base + frecs));
            }
        },
        Some(c) => {
            if is_binary(c) {
                proof {
                    assert(crecs =~~= Seq::<MatchRec>::empty());
                    assert(frecs =~~= fname + crecs);
                    assert(base + fname =~~= base + frecs);
                    assert(recs_of(out@) =~~= cap_results(base + frecs));
                }
            } else {
                let text = decode_lossy(c);
                let lines = split_lines_vec(&text);
                let ghost ls = split_lines(lossy_of(c@));
                proof {
                    assert(views_of(lines@) == ls);
                    assert(crecs == line_recs(e.rel_path@, ls, 1, query@, use_regex));
                    assert(ls.take(0) =~~= Seq::<Seq<u8>>::empty());
                    assert(recs_of(out@) =~~= base + fname + line_recs(
                        e.rel_path@,
                        ls.take(0),
                        1,
                        query@,
                        use_regex,
                    ));
                }
                let mut j: usize = 0;
                let nlines: usize = lines.len();
                while j < nlines && out.len() <= 2000
                    invariant
                        query@.len() > 0,
                        use_regex ==> rx_compiles(query@),
                        nlines == lines@.len(),
                        j <= nlines,
                        views_of(lines@) == ls,
                        base.len() <= 2000,
                        out@.len() <= 2001,
                        recs_of(out@) == base + fname + line_recs(
                            e.rel_path@,
                            ls.take(j as int),
                            1,
                            query@,
                            use_regex,
                        ),
                    decreases nlines - j,
                {
                    let line = &lines[j];
                    proof {
                        assert(line@ == ls[j as int]);
                        assert(ls.take(j as int).push(ls[j as int]) =~~= ls.take(j + 1));
                        lemma_line_recs_push(
                            e.rel_path@,
                            ls.take(j as int),
                            ls[j as int],
                            1,
                            query@,
                            use_regex,
                        );
                    }
                    match match_query(line, query, use_regex) {
                        Some(col) => {
                            assert(col < usize::MAX);
                            let trimmed = trim_bytes(line);
                            let preview = truncate_chars(&trimmed, 200);
                            let sr = SearchResult {
                                file: clone_bytes(&e.rel_path),
                                line: j + 1,
                                column: col + 1,
                                preview,
                            };
                            proof {
                                assert(find_in(ls[j as int], query@, use_regex) == Some(
                                    col as int,
                                ));
                                assert(sr@ =~~= line_rec(
                                    e.rel_path@,
                                    1 + j as int,
                                    ls[j as int],
                                    col as int,
                                ));
                            }
                            let ghost prev_out = out@;
                            out.push(sr);
                            proof {
                                assert(out@ == prev_out.push(sr));
                                assert(recs_of(out@) =~~= recs_of(prev_out) + seq![sr@]);
                                assert(ls.take(j as int).len() == j as int);
                                assert(line_recs(e.rel_path@, ls.take(j + 1), 1, query@, use_regex)
                                    == line_recs(e.rel_path@, ls.take(j as int), 1, query@, use_regex)
                                    + seq![line_rec(e.rel_path@, 1 + j as int, ls[j as int], col as int)]);
                                assert(recs_of(out@) =~~= base + fname + line_recs(
                                    e.rel_path@,
                                    ls.take(j + 1),
                                    1,
                                    query@,
                                    use_regex,
                                ));
                            }
                        },
                        None => {
                            proof {
                                assert(recs_of(out@) =~~= base + fname + line_recs(
                                    e.rel_path@,
                                    ls.take(j + 1),
                                    1,
                                    query@,
                                    use_regex,
                                ));
                            }
                        },
                    }
                    j += 1;
                }
                proof {
                    assert(frecs =~~= fname + crecs);
                    if j == nlines {
                        assert(ls.take(j as int) =~~= ls);
                        assert(recs_of(out@) =~~= base + frecs);
                        assert(recs_of(out@).len() <= 2001);
                        assert(recs_of(out@) =~~= cap_results(base + frecs));
                    } else {
                        // stopped at the cap: what is there is the first 2001
                        // hits of the full sequence
                        assert(out@.len() == 2001);
                        lemma_line_recs_split(e.rel_path@, ls, j as int, 1, query@, use_regex);
                        let done = base + fname + line_recs(
                            e.rel_path@,
                            ls.take(j as int),
                            1,
                            query@,
                            use_regex,
                        );
                        let rest = line_recs(
                            e.rel_path@,
                            ls.skip(j as int),
                            1 + j as int,
                            query@,
                            use_regex,
                        );
                        assert(base + frecs =~~= done + rest);
                        assert(done.len() == 2001);
                        assert((done + rest).take(2001) =~~= done);
                        assert(recs_of(out@) =~~= cap_results(base + frecs));
                    }
                }
            }
        },
    }
    out
}

/// Walks the given candidate files in order and collects every hit of the
/// query, exactly as `search_spec` describes and stopping once the running
/// count exceeds 2000: filename hits by case-insensitive substring (or
/// case-insensitive regex), content hits line by line with 1-based line and
/// byte-column numbers, binary and unreadable files contributing no content
/// hits, excluded directory names and the glob suffix filtering whole files,
/// and a regex query that does not compile producing no hits at all.
pub fn perform_search(
    files: &Vec<FileEntry>,
    query: &Vec<u8>,
    use_regex: bool,
    glob: Option<&Vec<u8>>,
) -> (r: Vec<SearchResult>)
    requires
        query@.len() > 0,
    ensures
        recs_of(r@) == cap_results(search_spec(files@, query@, use_regex, glob_view(glob))),
{
    let mut out: Vec<SearchResult> = Vec::new();
    if use_regex {
        if !regex_ci_compiles(query) {
            proof {
                assert(recs_of(out@) =~~= Seq::<MatchRec>::empty());
                assert(recs_of(out@) =~~= cap_results(
                    search_spec(files@, query@, use_regex, glob_view(glob)),
                ));
            }
            return out;
        }
    }
    let suffix: Option<Vec<u8>> = match glob {
        Some(g) => Some(strip_stars_vec(g)),
        None => None,
    };
    let ghost sfx = suffix_view(suffix);
    proof {
        assert(sfx == spec_suffix(glob_view(glob)));
    }
    let ghost full = all_recs(files@, query@, use_regex, sfx);
    proof {
        assert(search_spec(files@, query@, use_regex, glob_view(glob)) == full);
        assert(files@.take(0) =~~= Seq::<FileEntry>::empty());
        assert(recs_of(out@) =~~= all_recs(files@.take(0), query@, use_regex, sfx));
    }
    let nfiles: usize = files.len();
    let mut fi: usize = 0;
    while fi < nfiles && out.len() <= 2000
        invariant
            query@.len() > 0,
            use_regex ==> rx_compiles(query@),
            nfiles == files@.len(),
            fi <= nfiles,
            sfx == suffix_view(suffix),
            full == all_recs(files@, query@, use_regex, sfx),
            out@.len() <= 2001,
            recs_of(out@) == cap_results(all_recs(files@.take(fi as int), query@, use_regex, sfx)),
        decreases nfiles - fi,
    {
        proof {
            assert(recs_of(out@).len() <= 2000);
            assert(recs_of(out@) == all_recs(files@.take(fi as int), query@, use_regex, sfx));
            assert(files@.take(fi as int).push(files@[fi as int]) =~~= files@.take(fi + 1));
            lemma_all_recs_push(
                files@.take(fi as int),
                files@[fi as int],
                query@,
                use_regex,
                sfx,
            );
        }
        out = append_file_matches(out, &files[fi], query, use_regex, &suffix);
        fi += 1;
    }
    proof {
        if fi == nfiles {
            assert(files@.take(fi as int) =~~= files@);
        } else {
            assert(out@.len() == 2001);
            let done = all_recs(files@.take(fi as int), query@, use_regex, sfx);
            lemma_all_recs_split(files@, fi as int, query@, use_regex, sfx);
            let rest = all_recs(files@.skip(fi as int), query@, use_regex, sfx);
            assert(full =~~= done + rest);
            assert(done.len() >= 2001);
            assert(recs_of(out@) =~~= done.take(2001));
            assert((done + rest).take(2001) =~~= done.take(2001));
            assert(recs_of(out@) =~~= cap_results(full));
        }
    }
    out
}

/// Exclusion looks at whole component names only: a path none of whose
/// components is exactly an excluded name is kept, whatever substrings of the
/// full path those names may occur in.
pub proof fn lemma_exclusion_by_exact_component(components: Seq<Seq<u8>>)
    requires
        forall|i: int| 0 <= i < components.len() ==> !excluded_name(components[i]),
    ensures
        !path_excluded(components),
{
}

/// Substring matching is case-insensitive: lowering the query, or the text
/// searched, beforehand changes no match position.
pub proof fn lemma_substring_match_case_insensitive(hay: Seq<u8>, query: Seq<u8>)
    ensures
        find_in(hay, lower_seq(query), false) == find_in(hay, query, false),
        find_in(lower_seq(hay), query, false) == find_in(hay, query, false),
{
    lemma_ci_first_match_case_insensitive(hay, query, 0);
}

/// The result bound: whatever the workspace holds, capped output never
/// carries more than 2001 hits, and below the cap nothing is dropped.
pub proof fn lemma_result_cap(full: Seq<MatchRec>)
    ensures
        cap_results(full).len() <= 2001,
        full.len() <= 2001 ==> cap_results(full) == full,
{
}

/// Binary files yield no content hits: a filename hit is all such a file can
/// contribute.
pub proof fn lemma_binary_skip(e: FileEntry, query: Seq<u8>, use_regex: bool, suffix: Option<
    Seq<u8>,
>)
    requires
        e.content matches Some(c) && spec_is_binary(c@),
    ensures
        file_recs(e, query, use_regex, suffix) == if entry_passes(e, suffix) {
            filename_recs(e, query, use_regex)
        } else {
            Seq::<MatchRec>::empty()
        },
{
    if entry_passes(e, suffix) {
        assert(content_recs(e, query, use_regex) =~~= Seq::<MatchRec>::empty());
        assert(filename_recs(e, query, use_regex) + Seq::<MatchRec>::empty() =~~= filename_recs(
            e,
            query,
            use_regex,
        ));
    }
}

} // verus!
