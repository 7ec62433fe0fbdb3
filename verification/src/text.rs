//! Verified text utilities: prefix/suffix stripping, occurrence search and
//! placeholder substitution, and file-name splitting, all specified over
//! sequences of characters.
use vstd::prelude::*;
use vstd::string::StrSliceExecFns;
use vstd::string::StringExecFns;

verus! {

/// `p` is a prefix of `s`.
pub open spec fn has_prefix(s: Seq<char>, p: Seq<char>) -> bool {
    p.len() <= s.len() && s.subrange(0, p.len() as int) == p
}

/// `p` is a suffix of `s`.
pub open spec fn has_suffix(s: Seq<char>, p: Seq<char>) -> bool {
    p.len() <= s.len() && s.subrange(s.len() - p.len(), s.len() as int) == p
}

/// `s` with every leading repetition of `p` removed.
pub open spec fn strip_prefix_all(s: Seq<char>, p: Seq<char>) -> Seq<char>
    decreases s.len(),
{
    if p.len() == 0 {
        s
    } else if has_prefix(s, p) {
        strip_prefix_all(s.skip(p.len() as int), p)
    } else {
        s
    }
}

/// `s` with every trailing repetition of `p` removed.
pub open spec fn strip_suffix_all(s: Seq<char>, p: Seq<char>) -> Seq<char>
    decreases s.len(),
{
    if p.len() == 0 {
        s
    } else if has_suffix(s, p) {
        strip_suffix_all(s.take(s.len() - p.len()), p)
    } else {
        s
    }
}

/// `s` with one trailing `p` removed, when it has one.
pub open spec fn strip_suffix_once(s: Seq<char>, p: Seq<char>) -> Seq<char> {
    if has_suffix(s, p) {
        s.take(s.len() - p.len())
    } else {
        s
    }
}

/// `pat` occurs in `s` starting at position `i`.
pub open spec fn occurs_at(s: Seq<char>, pat: Seq<char>, i: int) -> bool {
    0 <= i && i + pat.len() <= s.len() && s.subrange(i, i + pat.len()) == pat
}

/// `s` with every occurrence of `pat` replaced by `repl`, scanning left to
/// right over non-overlapping occurrences; `s` itself when `pat` is empty.
pub open spec fn spec_replace_all(s: Seq<char>, pat: Seq<char>, repl: Seq<char>) -> Seq<char>
    decreases s.len(),
{
    if pat.len() == 0 || s.len() < pat.len() {
        s
    } else if occurs_at(s, pat, 0) {
        repl + spec_replace_all(s.skip(pat.len() as int), pat, repl)
    } else {
        seq![s[0]] + spec_replace_all(s.skip(1), pat, repl)
    }
}

/// The position of the last `.` in a file name that separates a stem from an
/// extension: the greatest index `i >= 1` holding `.`, if any. A dot in the
/// leading position marks a hidden file, not an extension.
pub open spec fn last_dot(name: Seq<char>) -> Option<int>
    decreases name.len(),
{
    if name.len() <= 1 {
        None
    } else if name[name.len() - 1] == '.' {
        Some(name.len() - 1)
    } else {
        last_dot(name.drop_last())
    }
}

/// The file name without its extension (the whole name when it has none).
pub open spec fn file_stem(name: Seq<char>) -> Seq<char> {
    match last_dot(name) {
        Some(i) => name.take(i),
        None => name,
    }
}

/// The extension of a file name: the text after the last stem-separating dot.
pub open spec fn file_ext(name: Seq<char>) -> Option<Seq<char>> {
    match last_dot(name) {
        Some(i) => Some(name.skip(i + 1)),
        None => None,
    }
}

/// The file name with its extension rewritten to `html`.
pub open spec fn html_file_name(name: Seq<char>) -> Seq<char> {
    file_stem(name) + ".html"@
}

/// `a` and `b` joined with a path separator.
pub open spec fn spec_path_join(a: Seq<char>, b: Seq<char>) -> Seq<char> {
    a + "/"@ + b
}

/// What a source file name means to the builder.
pub enum FileKind {
    /// Copied to the output unchanged.
    Passthrough,
    /// Neither converted nor copied.
    Ignored,
    /// Converted to an HTML page.
    Content,
}

/// Classification of a file name by extension: a stylesheet passes through,
/// already-rendered HTML is ignored, everything else is content.
pub open spec fn spec_classify(name: Seq<char>) -> FileKind {
    match file_ext(name) {
        Some(e) => if e == "css"@ {
            FileKind::Passthrough
        } else if e == "html"@ {
            FileKind::Ignored
        } else {
            FileKind::Content
        },
        None => FileKind::Content,
    }
}

/// Character-exact string equality.
pub fn eq_str(a: &str, b: &str) -> (r: bool)
    ensures
        r == (a@ == b@),
{
    let alen = a.unicode_len();
    let blen = b.unicode_len();
    if alen != blen {
        return false;
    }
    let mut i: usize = 0;
    while i < alen
        invariant
            alen == a@.len(),
            alen == b@.len(),
            0 <= i <= alen,
            forall|j: int| 0 <= j < i ==> a@[j] == b@[j],
        decreases alen - i,
    {
        if a.get_char(i) != b.get_char(i) {
            return false;
        }
        i = i + 1;
    }
    proof {
        assert(a@ =~= b@);
    }
    true
}

/// Whether `pat` occurs in `s` at character position `i`.
pub fn match_at(s: &str, i: usize, pat: &str) -> (r: bool)
    ensures
        r == occurs_at(s@, pat@, i as int),
{
    let slen = s.unicode_len();
    let plen = pat.unicode_len();
    if i > slen || plen > slen - i {
        return false;
    }
    let sub = s.substring_char(i, i + plen);
    eq_str(sub, pat)
}

/// Whether `suf` is a suffix of `s`.
pub fn ends_with(s: &str, suf: &str) -> (r: bool)
    ensures
        r == has_suffix(s@, suf@),
{
    let slen = s.unicode_len();
    let plen = suf.unicode_len();
    if plen > slen {
        return false;
    }
    let sub = s.substring_char(slen - plen, slen);
    eq_str(sub, suf)
}

/// Removes every trailing repetition of `suf` from `s`.
pub fn trim_end_all(s: &str, suf: &str) -> (r: String)
    ensures
        r@ == strip_suffix_all(s@, suf@),
{
    let plen = suf.unicode_len();
    let mut cur: String = s.to_owned();
    if plen == 0 {
        return cur;
    }
    loop
        invariant
            plen == suf@.len(),
            plen > 0,
            strip_suffix_all(cur@, suf@) == strip_suffix_all(s@, suf@),
        decreases cur@.len(),
    {
        let clen = cur.as_str().unicode_len();
        if !ends_with(cur.as_str(), suf) {
            return cur;
        }
        let next = cur.as_str().substring_char(0, clen - plen).to_owned();
        proof {
            assert(next@ =~= cur@.take(cur@.len() - suf@.len()));
        }
        cur = next;
    }
}

/// Removes one trailing `suf` from `s`, when it has one.
pub fn trim_end_once(s: &str, suf: &str) -> (r: String)
    ensures
        r@ == strip_suffix_once(s@, suf@),
{
    let slen = s.unicode_len();
    let plen = suf.unicode_len();
    if ends_with(s, suf) {
        let r = s.substring_char(0, slen - plen).to_owned();
        proof {
            assert(r@ =~= s@.take(s@.len() - suf@.len()));
        }
        r
    } else {
        s.to_owned()
    }
}

/// Removes every leading repetition of `pre` from `s`.
pub fn trim_start_all(s: &str, pre: &str) -> (r: String)
    ensures
        r@ == strip_prefix_all(s@, pre@),
{
    let plen = pre.unicode_len();
    let mut cur: String = s.to_owned();
    if plen == 0 {
        return cur;
    }
    loop
        invariant
            plen == pre@.len(),
            plen > 0,
            strip_prefix_all(cur@, pre@) == strip_prefix_all(s@, pre@),
        decreases cur@.len(),
    {
        let clen = cur.as_str().unicode_len();
        let starts = match_at(cur.as_str(), 0, pre);
        if !starts {
            proof {
                assert(has_prefix(cur@, pre@) ==> occurs_at(cur@, pre@, 0));
            }
            return cur;
        }
        let next = cur.as_str().substring_char(plen, clen).to_owned();
        proof {
            assert(next@ =~= cur@.skip(pre@.len() as int));
        }
        cur = next;
    }
}

/// Replaces every occurrence of `pat` in `s` by `repl`, scanning left to
/// right; returns `s` unchanged when `pat` is empty.
pub fn replace_all(s: &str, pat: &str, repl: &str) -> (r: String)
    ensures
        r@ == spec_replace_all(s@, pat@, repl@),
{
    let slen = s.unicode_len();
    let plen = pat.unicode_len();
    if plen == 0 {
        return s.to_owned();
    }
    let mut out = String::new();
    let mut i: usize = 0;
    proof {
        assert(s@.skip(0) =~= s@);
        assert(out@ + spec_replace_all(s@, pat@, repl@) =~= spec_replace_all(s@, pat@, repl@));
    }
    while i < slen
        invariant
            plen == pat@.len(),
            plen > 0,
            slen == s@.len(),
            0 <= i <= slen,
            spec_replace_all(s@, pat@, repl@) == out@ + spec_replace_all(
                s@.skip(i as int),
                pat@,
                repl@,
            ),
        decreases slen - i,
    {
        let ghost rem = s@.skip(i as int);
        if match_at(s, i, pat) {
            out.append(repl);
            proof {
                assert(rem.subrange(0, pat@.len() as int) =~= s@.subrange(
                    i as int,
                    i + pat@.len(),
                ));
                assert(occurs_at(rem, pat@, 0));
                assert(rem.skip(pat@.len() as int) =~= s@.skip(i + pat@.len()));
            }
            i = i + plen;
        } else {
            let c = s.substring_char(i, i + 1);
            out.append(c);
            proof {
                if rem.len() >= pat@.len() {
                    assert(rem.subrange(0, pat@.len() as int) =~= s@.subrange(
                        i as int,
                        i + pat@.len(),
                    ));
                    assert(!occurs_at(rem, pat@, 0));
                }
                assert(c@ =~= seq![s@[i as int]]);
                assert(rem.skip(1) =~= s@.skip(i + 1));
                if rem.len() < pat@.len() {
                    assert(rem =~= seq![s@[i as int]] + s@.skip(i + 1));
                    assert(s@.skip(i + 1).len() < pat@.len());
                }
            }
            i = i + 1;
        }
    }
    proof {
        assert(s@.skip(slen as int) =~= Seq::<char>::empty());
        assert(spec_replace_all(s@.skip(slen as int), pat@, repl@) =~= Seq::<char>::empty());
        assert(out@ + Seq::<char>::empty() =~= out@);
    }
    out
}

/// The position of the last stem-separating dot in a file name.
pub fn find_last_dot(name: &str) -> (r: Option<usize>)
    ensures
        match r {
            Some(i) => last_dot(name@) == Some(i as int),
            None => last_dot(name@) is None,
        },
{
    let len = name.unicode_len();
    let mut j: usize = len;
    proof {
        assert(name@.take(len as int) =~= name@);
    }
    while j > 1
        invariant
            len == name@.len(),
            0 <= j <= len,
            last_dot(name@) == last_dot(name@.take(j as int)),
        decreases j,
    {
        if name.get_char(j - 1) == '.' {
            proof {
                assert(name@.take(j as int)[j - 1] == name@[j - 1]);
            }
            return Some(j - 1);
        }
        proof {
            assert(name@.take(j as int).drop_last() =~= name@.take(j - 1));
        }
        j = j - 1;
    }
    None
}

/// The file name without its extension.
pub fn stem_of(name: &str) -> (r: String)
    ensures
        r@ == file_stem(name@),
{
    match find_last_dot(name) {
        Some(i) => {
            proof {
                lemma_last_dot_in_range(name@);
            }
            name.substring_char(0, i).to_owned()
        },
        None => name.to_owned(),
    }
}

/// The file name with its extension rewritten to `html`.
pub fn html_name(name: &str) -> (r: String)
    ensures
        r@ == html_file_name(name@),
{
    let mut r = stem_of(name);
    r.append(".html");
    r
}

/// Classifies a file name by its extension.
pub fn classify(name: &str) -> (k: FileKind)
    ensures
        k == spec_classify(name@),
{
    match find_last_dot(name) {
        Some(i) => {
            proof {
                lemma_last_dot_in_range(name@);
            }
            let len = name.unicode_len();
            let ext = name.substring_char(i + 1, len);
            if eq_str(ext, "css") {
                FileKind::Passthrough
            } else if eq_str(ext, "html") {
                FileKind::Ignored
            } else {
                FileKind::Content
            }
        },
        None => FileKind::Content,
    }
}

/// `a` and `b` joined with a path separator.
pub fn path_join(a: &str, b: &str) -> (r: String)
    ensures
        r@ == spec_path_join(a@, b@),
{
    let mut r = a.to_owned();
    r.append("/");
    r.append(b);
    proof {
        assert(r@ =~= spec_path_join(a@, b@));
    }
    r
}

/// A stem-separating dot lies strictly inside the name.
pub proof fn lemma_last_dot_in_range(name: Seq<char>)
    ensures
        match last_dot(name) {
            Some(i) => 1 <= i < name.len() && name[i] == '.',
            None => true,
        },
    decreases name.len(),
{
    if name.len() <= 1 {
    } else if name[name.len() - 1] == '.' {
    } else {
        lemma_last_dot_in_range(name.drop_last());
    }
}

} // verus!
