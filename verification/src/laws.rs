//! Laws of the builder, proved once and for all: page counts, the
//! placeholder round trip, default-index stickiness, passthrough fidelity,
//! the ignored-file policy, and idempotence of rebuilding.
use crate::builder::{
    entry_content, entry_name, has_index, index_content, index_name, is_index_file,
    spec_build_dir, spec_build_entries, spec_build_index, EntryModel, FileModel,
};
use crate::links::{links_markup, placeholder};
use crate::text::{occurs_at, spec_classify, spec_replace_all, FileKind};
use vstd::prelude::*;

verus! {

/// How many pages a directory's entries generate: one per subdirectory and
/// one per convertible content file.
pub open spec fn page_count(entries: Seq<EntryModel>) -> nat
    decreases entries.len(),
{
    if entries.len() == 0 {
        0
    } else {
        page_count(entries.drop_last()) + match entries.last() {
            EntryModel::Dir { .. } => 1nat,
            EntryModel::File { name, .. } => if spec_classify(name) is Content {
                1nat
            } else {
                0nat
            },
        }
    }
}

/// A directory with N convertible files and M subdirectories yields exactly
/// N + M generated pages, in entry order, and its output holds exactly one
/// index page besides the files of the entry pass.
pub proof fn lemma_page_count(entries: Seq<EntryModel>, src: Seq<char>, dest: Seq<char>)
    ensures
        spec_build_dir(entries, src, dest).pages.len() == page_count(entries),
        spec_build_dir(entries, src, dest).files.len() == spec_build_entries(
            entries,
            src,
            dest,
        ).files.len() + 1,
    decreases entries.len(),
{
    lemma_level_page_count(entries, src, dest);
}

/// The entry pass alone yields one page per subdirectory or content file.
pub proof fn lemma_level_page_count(entries: Seq<EntryModel>, src: Seq<char>, dest: Seq<char>)
    ensures
        spec_build_entries(entries, src, dest).pages.len() == page_count(entries),
    decreases entries.len(),
{
    if entries.len() > 0 {
        lemma_level_page_count(entries.drop_last(), src, dest);
    }
}

/// Shifting a string by `k` shifts where a pattern occurs in it.
pub proof fn lemma_occurs_skip(s: Seq<char>, pat: Seq<char>, k: int, q: int)
    requires
        0 <= k <= s.len(),
        0 <= q,
    ensures
        occurs_at(s.skip(k), pat, q) <==> occurs_at(s, pat, k + q),
{
    if q + pat.len() <= s.len() - k {
        assert(s.skip(k).subrange(q, q + pat.len()) =~= s.subrange(k + q, k + q + pat.len()));
    }
}

/// Substitution into a string the pattern does not occur in changes nothing.
pub proof fn lemma_replace_none(s: Seq<char>, pat: Seq<char>, repl: Seq<char>)
    requires
        forall|q: int| !occurs_at(s, pat, q),
    ensures
        spec_replace_all(s, pat, repl) == s,
    decreases s.len(),
{
    if pat.len() == 0 || s.len() < pat.len() {
    } else {
        assert(!occurs_at(s, pat, 0));
        assert forall|q: int| !occurs_at(s.skip(1), pat, q) by {
            if 0 <= q {
                lemma_occurs_skip(s, pat, 1, q);
            }
        }
        lemma_replace_none(s.skip(1), pat, repl);
        assert(seq![s[0]] + s.skip(1) =~= s);
    }
}

/// Substitution into a string holding exactly one occurrence of the pattern
/// replaces that span and nothing else.
pub proof fn lemma_replace_single(s: Seq<char>, pat: Seq<char>, repl: Seq<char>, p: int)
    requires
        pat.len() > 0,
        occurs_at(s, pat, p),
        forall|q: int| occurs_at(s, pat, q) ==> q == p,
    ensures
        spec_replace_all(s, pat, repl) == s.take(p) + repl + s.skip(p + pat.len()),
    decreases s.len(),
{
    if p == 0 {
        assert forall|q: int| !occurs_at(s.skip(pat.len() as int), pat, q) by {
            if 0 <= q {
                lemma_occurs_skip(s, pat, pat.len() as int, q);
            }
        }
        lemma_replace_none(s.skip(pat.len() as int), pat, repl);
        assert(s.take(0) =~= Seq::<char>::empty());
        assert(s.take(0) + repl + s.skip(pat.len() as int) =~= repl + s.skip(pat.len() as int));
    } else {
        assert(!occurs_at(s, pat, 0));
        assert forall|q: int| occurs_at(s.skip(1), pat, q) implies q == p - 1 by {
            if 0 <= q {
                lemma_occurs_skip(s, pat, 1, q);
            }
        }
        lemma_occurs_skip(s, pat, 1, p - 1);
        lemma_replace_single(s.skip(1), pat, repl, p - 1);
        assert(s.skip(1).take(p - 1) =~= s.take(p).skip(1));
        assert(s.skip(1).skip(p - 1 + pat.len()) =~= s.skip(p + pat.len()));
        assert(seq![s[0]] + (s.skip(1).take(p - 1) + repl + s.skip(1).skip(p - 1 + pat.len()))
            =~= s.take(p) + repl + s.skip(p + pat.len()));
    }
}

/// Placeholder round trip: an index source holding the placeholder exactly
/// once yields an index page that carries the link markup in the
/// placeholder's span and is unchanged outside it.
pub proof fn lemma_placeholder_round_trip(
    entries: Seq<EntryModel>,
    pages: Seq<Seq<char>>,
    src: Seq<char>,
    dest: Seq<char>,
    p: int,
)
    requires
        has_index(entries),
        occurs_at(index_content(entries), placeholder(), p),
        forall|q: int| occurs_at(index_content(entries), placeholder(), q) ==> q == p,
    ensures
        spec_build_index(entries, pages, src, dest).0.content == index_content(entries).take(p)
            + links_markup(pages, dest) + index_content(entries).skip(p + placeholder().len()),
{
    reveal_strlit("{{LINKS}}");
    lemma_replace_single(index_content(entries), placeholder(), links_markup(pages, dest), p);
}

/// Default-index stickiness: a directory that already holds an index source
/// is given no fresh default, whatever the link set; the output index is
/// that source with the current build's links substituted for every
/// placeholder occurrence.
pub proof fn lemma_sticky_index(
    entries: Seq<EntryModel>,
    pages: Seq<Seq<char>>,
    src: Seq<char>,
    dest: Seq<char>,
)
    requires
        has_index(entries),
    ensures
        spec_build_index(entries, pages, src, dest).1 is None,
        spec_build_index(entries, pages, src, dest).0.content == spec_replace_all(
            index_content(entries),
            placeholder(),
            links_markup(pages, dest),
        ),
{
}

/// The entry pass copies a passthrough file to the output verbatim.
pub proof fn lemma_passthrough_level(
    entries: Seq<EntryModel>,
    src: Seq<char>,
    dest: Seq<char>,
    i: int,
)
    requires
        0 <= i < entries.len(),
        entries[i] is File,
        spec_classify(entry_name(entries[i])) is Passthrough,
    ensures
        spec_build_entries(entries, src, dest).files.contains(
            FileModel {
                path: crate::text::spec_path_join(dest, entry_name(entries[i])),
                content: entry_content(entries[i]),
            },
        ),
    decreases entries.len(),
{
    let fm = FileModel {
        path: crate::text::spec_path_join(dest, entry_name(entries[i])),
        content: entry_content(entries[i]),
    };
    let prev = spec_build_entries(entries.drop_last(), src, dest);
    if i == entries.len() - 1 {
        assert(prev.files.push(fm)[prev.files.len() as int] == fm);
    } else {
        lemma_passthrough_level(entries.drop_last(), src, dest, i);
        let k = choose|k: int| 0 <= k < prev.files.len() && prev.files[k] == fm;
        let cur = spec_build_entries(entries, src, dest);
        assert(cur.files[k] == fm);
    }
}

/// Passthrough fidelity: a stylesheet entry appears in the build's output at
/// its mirrored path with its text byte for byte.
pub proof fn lemma_passthrough_fidelity(
    entries: Seq<EntryModel>,
    src: Seq<char>,
    dest: Seq<char>,
    i: int,
)
    requires
        0 <= i < entries.len(),
        entries[i] is File,
        spec_classify(entry_name(entries[i])) is Passthrough,
    ensures
        spec_build_dir(entries, src, dest).files.contains(
            FileModel {
                path: crate::text::spec_path_join(dest, entry_name(entries[i])),
                content: entry_content(entries[i]),
            },
        ),
{
    lemma_passthrough_level(entries, src, dest, i);
    let fm = FileModel {
        path: crate::text::spec_path_join(dest, entry_name(entries[i])),
        content: entry_content(entries[i]),
    };
    let lvl = spec_build_entries(entries, src, dest);
    let k = choose|k: int| 0 <= k < lvl.files.len() && lvl.files[k] == fm;
    assert(spec_build_dir(entries, src, dest).files[k] == fm);
}

/// A nonempty list of entries holds an index source exactly when its head is
/// one or its tail holds one.
pub proof fn lemma_has_index_unfold(s: Seq<EntryModel>)
    requires
        s.len() > 0,
    ensures
        has_index(s) == (is_index_file(s[0]) || has_index(s.drop_first())),
{
    if has_index(s) {
        let k = choose|k: int| 0 <= k < s.len() && is_index_file(s[k]);
        if k > 0 {
            assert(s.drop_first()[k - 1] == s[k]);
        }
    }
    if is_index_file(s[0]) {
        assert(has_index(s));
    }
    if has_index(s.drop_first()) {
        let k = choose|k: int| 0 <= k < s.drop_first().len() && is_index_file(s.drop_first()[k]);
        assert(s[k + 1] == s.drop_first()[k]);
        assert(has_index(s));
    }
}

/// Removing an entry that is no index source changes neither whether the
/// directory has one nor which text it reads.
pub proof fn lemma_index_content_remove(s: Seq<EntryModel>, i: int)
    requires
        0 <= i < s.len(),
        !is_index_file(s[i]),
    ensures
        has_index(s.remove(i)) == has_index(s),
        index_content(s.remove(i)) == index_content(s),
    decreases s.len(),
{
    lemma_has_index_unfold(s);
    if i == 0 {
        assert(s.remove(0) =~= s.drop_first());
    } else {
        assert(s.remove(i)[0] == s[0]);
        if s.remove(i).len() > 0 {
            lemma_has_index_unfold(s.remove(i));
        }
        if is_index_file(s[0]) {
        } else {
            assert(s.remove(i).drop_first() =~= s.drop_first().remove(i - 1));
            assert(s.drop_first()[i - 1] == s[i]);
            lemma_index_content_remove(s.drop_first(), i - 1);
        }
    }
}

/// The entry pass gives an ignored file no effect: a directory with and
/// without it builds to the same files, pages, and persisted sources.
pub proof fn lemma_ignored_level(entries: Seq<EntryModel>, src: Seq<char>, dest: Seq<char>, i: int)
    requires
        0 <= i < entries.len(),
        entries[i] is File,
        spec_classify(entry_name(entries[i])) is Ignored,
    ensures
        ({
            let a = spec_build_entries(entries, src, dest);
            let b = spec_build_entries(entries.remove(i), src, dest);
            a.files == b.files && a.pages == b.pages && a.new_sources == b.new_sources
        }),
    decreases entries.len(),
{
    if i == entries.len() - 1 {
        assert(entries.remove(i) =~= entries.drop_last());
    } else {
        lemma_ignored_level(entries.drop_last(), src, dest, i);
        assert(entries.remove(i).drop_last() =~= entries.drop_last().remove(i));
        assert(entries.remove(i).last() == entries.last());
    }
}

/// Ignored-file policy: a pre-existing rendered HTML file other than the
/// index source adds nothing to the output — the build of the directory
/// without it writes the same files and persists the same sources.
pub proof fn lemma_ignored_policy(entries: Seq<EntryModel>, src: Seq<char>, dest: Seq<char>, i: int)
    requires
        0 <= i < entries.len(),
        entries[i] is File,
        spec_classify(entry_name(entries[i])) is Ignored,
        entry_name(entries[i]) != index_name(),
    ensures
        ({
            let a = spec_build_dir(entries, src, dest);
            let b = spec_build_dir(entries.remove(i), src, dest);
            a.files == b.files && a.pages == b.pages && a.new_sources == b.new_sources
        }),
{
    lemma_ignored_level(entries, src, dest, i);
    assert(!is_index_file(entries[i]));
    lemma_index_content_remove(entries, i);
}

/// How a build may rewrite one source entry: a file stays exactly as it was,
/// a directory stays a directory of the same name.
pub open spec fn preserves_entry(e: EntryModel, u: EntryModel) -> bool {
    match e {
        EntryModel::File { .. } => u == e,
        EntryModel::Dir { .. } => u is Dir && entry_name(u) == entry_name(e),
    }
}

/// The entry pass rewrites the source entries position by position: files
/// stay as they were, directories stay directories of the same name.
pub proof fn lemma_level_shape(entries: Seq<EntryModel>, src: Seq<char>, dest: Seq<char>)
    ensures
        ({
            let l = spec_build_entries(entries, src, dest);
            l.updated.len() == entries.len() && forall|k: int|
                0 <= k < entries.len() ==> #[trigger] preserves_entry(entries[k], l.updated[k])
        }),
    decreases entries.len(),
{
    if entries.len() > 0 {
        lemma_level_shape(entries.drop_last(), src, dest);
        let prev = spec_build_entries(entries.drop_last(), src, dest);
        let l = spec_build_entries(entries, src, dest);
        assert forall|k: int| 0 <= k < entries.len() implies #[trigger] preserves_entry(
            entries[k],
            l.updated[k],
        ) by {
            if k < entries.len() - 1 {
                assert(preserves_entry(entries.drop_last()[k], prev.updated[k]));
                assert(l.updated[k] == prev.updated[k]);
            }
        }
    }
}

/// A rewrite that keeps files and directory names keeps whether an index
/// source exists, and which text it holds.
pub proof fn lemma_index_preserved(entries: Seq<EntryModel>, u: Seq<EntryModel>)
    requires
        u.len() == entries.len(),
        forall|k: int| 0 <= k < entries.len() ==> #[trigger] preserves_entry(entries[k], u[k]),
    ensures
        has_index(u) == has_index(entries),
        has_index(entries) ==> index_content(u) == index_content(entries),
    decreases entries.len(),
{
    if entries.len() > 0 {
        lemma_has_index_unfold(entries);
        lemma_has_index_unfold(u);
        assert(preserves_entry(entries[0], u[0]));
        assert(is_index_file(u[0]) == is_index_file(entries[0]));
        assert forall|k: int|
            0 <= k < entries.drop_first().len() implies #[trigger] preserves_entry(
            entries.drop_first()[k],
            u.drop_first()[k],
        ) by {
            assert(preserves_entry(entries[k + 1], u[k + 1]));
        }
        lemma_index_preserved(entries.drop_first(), u.drop_first());
    }
}

/// The per-directory index file name names an ignored file: its extension is
/// the rendered-page extension.
pub proof fn lemma_index_name_ignored()
    ensures
        spec_classify(index_name()) is Ignored,
{
    reveal_strlit("index.html");
    reveal_strlit("html");
    reveal_strlit("css");
    let n = index_name();
    assert(n.len() == 10);
    assert(n[5] == '.');
    assert(crate::text::last_dot(n) == Some(5int)) by {
        reveal_with_fuel(crate::text::last_dot, 6);
        assert(n.drop_last() =~= n.take(9));
        assert(n.take(9).drop_last() =~= n.take(8));
        assert(n.take(8).drop_last() =~= n.take(7));
        assert(n.take(7).drop_last() =~= n.take(6));
        assert(n.take(6)[5] == '.');
        assert(crate::text::last_dot(n.take(6)) == Some(5int));
    }
    assert(n.skip(6) =~= "html"@);
    assert("html"@.len() == 4 && "css"@.len() == 3);
    assert(n.skip(6) != "css"@);
}

/// The entry pass is idempotent: run again on the entries it leaves behind,
/// it yields the same files and pages and persists nothing further.
pub proof fn lemma_level_idempotent(entries: Seq<EntryModel>, src: Seq<char>, dest: Seq<char>)
    ensures
        ({
            let l1 = spec_build_entries(entries, src, dest);
            let l2 = spec_build_entries(l1.updated, src, dest);
            l2.files == l1.files && l2.pages == l1.pages && l2.new_sources.len() == 0
                && l2.updated == l1.updated
        }),
    decreases entries, 0int,
{
    if entries.len() == 0 {
    } else {
        lemma_level_idempotent(entries.drop_last(), src, dest);
        let prev1 = spec_build_entries(entries.drop_last(), src, dest);
        let l1 = spec_build_entries(entries, src, dest);
        assert(l1.updated.drop_last() =~= prev1.updated);
        match entries.last() {
            EntryModel::Dir { name, entries: sub } => {
                lemma_build_idempotent(
                    sub,
                    crate::text::spec_path_join(src, name),
                    crate::text::spec_path_join(dest, name),
                );
            },
            EntryModel::File { .. } => {},
        }
    }
}

/// Idempotence: a second build from the source tree a build leaves behind
/// yields the identical output files and pages, persists no further default
/// index source, and leaves the source tree as it stands.
pub proof fn lemma_build_idempotent(entries: Seq<EntryModel>, src: Seq<char>, dest: Seq<char>)
    ensures
        ({
            let b1 = spec_build_dir(entries, src, dest);
            let b2 = spec_build_dir(b1.updated, src, dest);
            b2.files == b1.files && b2.pages == b1.pages && b2.new_sources.len() == 0
                && b2.updated == b1.updated
        }),
    decreases entries, 1int,
{
    lemma_level_idempotent(entries, src, dest);
    lemma_level_shape(entries, src, dest);
    let l1 = spec_build_entries(entries, src, dest);
    let r1 = spec_build_index(entries, l1.pages, src, dest);
    let b1 = spec_build_dir(entries, src, dest);
    let l2 = spec_build_entries(b1.updated, src, dest);
    if has_index(entries) {
        lemma_index_preserved(entries, l1.updated);
    } else {
        let default = crate::links::spec_default_index();
        let x = EntryModel::File { name: index_name(), content: default };
        assert(b1.updated.drop_last() =~= l1.updated);
        assert(b1.updated.last() == x);
        lemma_index_name_ignored();
        assert(is_index_file(x));
        assert(has_index(b1.updated)) by {
            assert(is_index_file(b1.updated[b1.updated.len() - 1]));
        }
        assert forall|k: int| 0 <= k < b1.updated.len() - 1 implies !is_index_file(
            b1.updated[k],
        ) by {
            assert(preserves_entry(entries[k], l1.updated[k]));
            assert(b1.updated[k] == l1.updated[k]);
            if is_index_file(l1.updated[k]) {
                assert(is_index_file(entries[k]));
                assert(has_index(entries));
            }
        }
        crate::builder::lemma_index_content_at(b1.updated, b1.updated.len() - 1);
        assert(index_content(b1.updated) == default);
    }
}

} // verus!
