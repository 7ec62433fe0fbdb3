//! The recursive site builder: walks a source tree held in memory, converts
//! content files, mirrors directories, and generates one index page per
//! directory, collecting every output file as a path/content pair.
use crate::convert::{convert_page, spec_content_page};
use crate::links::{
    generate_default_index_html, generate_links, links_markup, placeholder, spec_default_index,
};
use crate::text::{
    classify, eq_str, html_file_name, html_name, path_join, replace_all, spec_classify,
    spec_path_join, spec_replace_all, FileKind,
};
use vstd::prelude::*;

verus! {

/// One entry of a source directory: a subdirectory or a file with its text.
pub enum Entry {
    Dir { name: String, entries: Vec<Entry> },
    File { name: String, content: String },
}

/// The mathematical model of an entry, over sequences of characters.
pub enum EntryModel {
    Dir { name: Seq<char>, entries: Seq<EntryModel> },
    File { name: Seq<char>, content: Seq<char> },
}

impl Entry {
    /// The model of this entry.
    pub open spec fn model(self) -> EntryModel
        decreases self, 0int,
    {
        match self {
            Entry::Dir { name, entries } => EntryModel::Dir {
                name: name@,
                entries: models(entries@),
            },
            Entry::File { name, content } => EntryModel::File {
                name: name@,
                content: content@,
            },
        }
    }
}

/// The models of a list of entries, in order.
pub open spec fn models(s: Seq<Entry>) -> Seq<EntryModel>
    decreases s, 1int,
{
    if s.len() == 0 {
        Seq::empty()
    } else {
        models(s.drop_last()).push(s.last().model())
    }
}

/// `models` maps each entry to its model, position by position.
pub proof fn lemma_models(s: Seq<Entry>)
    ensures
        models(s).len() == s.len(),
        forall|i: int| 0 <= i < s.len() ==> models(s)[i] == s[i].model(),
    decreases s.len(),
{
    if s.len() > 0 {
        lemma_models(s.drop_last());
    }
}

/// An output file: where it goes and what it holds.
#[verifier::ext_equal]
pub struct FileModel {
    pub path: Seq<char>,
    pub content: Seq<char>,
}

/// Everything a build of one directory produces: the output files, the
/// generated pages of this level, the default index sources persisted into
/// the source tree, and the source entries as they stand after the build.
#[verifier::ext_equal]
pub struct DirBuild {
    pub files: Seq<FileModel>,
    pub pages: Seq<Seq<char>>,
    pub new_sources: Seq<FileModel>,
    pub updated: Seq<EntryModel>,
}

/// The name of an entry.
pub open spec fn entry_name(e: EntryModel) -> Seq<char> {
    match e {
        EntryModel::Dir { name, .. } => name,
        EntryModel::File { name, .. } => name,
    }
}

/// The content of a file entry.
pub open spec fn entry_content(e: EntryModel) -> Seq<char> {
    match e {
        EntryModel::File { content, .. } => content,
        EntryModel::Dir { .. } => Seq::empty(),
    }
}

/// The per-directory index file name.
pub open spec fn index_name() -> Seq<char> {
    "index.html"@
}

/// `e` is a user-supplied index source file.
pub open spec fn is_index_file(e: EntryModel) -> bool {
    match e {
        EntryModel::File { name, .. } => name == index_name(),
        EntryModel::Dir { .. } => false,
    }
}

/// Some entry of the directory is an index source file.
pub open spec fn has_index(entries: Seq<EntryModel>) -> bool {
    exists|i: int| 0 <= i < entries.len() && is_index_file(entries[i])
}

/// The text of the first index source file among the entries.
pub open spec fn index_content(entries: Seq<EntryModel>) -> Seq<char>
    decreases entries.len(),
{
    if entries.len() == 0 {
        Seq::empty()
    } else if is_index_file(entries[0]) {
        entry_content(entries[0])
    } else {
        index_content(entries.drop_first())
    }
}

/// The result of generating one directory's index: the output index file,
/// and the default index source to persist when the directory had none.
pub open spec fn spec_build_index(
    entries: Seq<EntryModel>,
    pages: Seq<Seq<char>>,
    src: Seq<char>,
    dest: Seq<char>,
) -> (FileModel, Option<FileModel>) {
    let links = links_markup(pages, dest);
    let index_path = spec_path_join(dest, index_name());
    if has_index(entries) {
        (
            FileModel {
                path: index_path,
                content: spec_replace_all(index_content(entries), placeholder(), links),
            },
            None,
        )
    } else {
        let default = spec_default_index();
        (
            FileModel {
                path: index_path,
                content: spec_replace_all(default, placeholder(), links),
            },
            Some(FileModel { path: spec_path_join(src, index_name()), content: default }),
        )
    }
}

/// One pass over a directory's entries, in order: a subdirectory is built
/// recursively and contributes its index page; a passthrough file is copied;
/// an ignored file contributes nothing; a content file becomes a page.
pub open spec fn spec_build_entries(
    entries: Seq<EntryModel>,
    src: Seq<char>,
    dest: Seq<char>,
) -> DirBuild
    decreases entries, 0int,
{
    if entries.len() == 0 {
        DirBuild {
            files: Seq::empty(),
            pages: Seq::empty(),
            new_sources: Seq::empty(),
            updated: Seq::empty(),
        }
    } else {
        let prev = spec_build_entries(entries.drop_last(), src, dest);
        let e = entries.last();
        match e {
            EntryModel::Dir { name, entries: sub } => {
                let d = spec_build_dir(sub, spec_path_join(src, name), spec_path_join(dest, name));
                DirBuild {
                    files: prev.files + d.files,
                    pages: prev.pages.push(
                        spec_path_join(spec_path_join(dest, name), index_name()),
                    ),
                    new_sources: prev.new_sources + d.new_sources,
                    updated: prev.updated.push(EntryModel::Dir { name, entries: d.updated }),
                }
            },
            EntryModel::File { name, content } => match spec_classify(name) {
                FileKind::Passthrough => DirBuild {
                    files: prev.files.push(
                        FileModel { path: spec_path_join(dest, name), content },
                    ),
                    pages: prev.pages,
                    new_sources: prev.new_sources,
                    updated: prev.updated.push(e),
                },
                FileKind::Ignored => DirBuild {
                    files: prev.files,
                    pages: prev.pages,
                    new_sources: prev.new_sources,
                    updated: prev.updated.push(e),
                },
                FileKind::Content => DirBuild {
                    files: prev.files.push(
                        FileModel {
                            path: spec_path_join(dest, html_file_name(name)),
                            content: spec_content_page(name, content),
                        },
                    ),
                    pages: prev.pages.push(spec_path_join(dest, html_file_name(name))),
                    new_sources: prev.new_sources,
                    updated: prev.updated.push(e),
                },
            },
        }
    }
}

/// A full build of one directory: the pass over its entries followed by
/// index generation. When the directory has no index source, the default one
/// is recorded both as a file to persist and as a new entry of the source
/// directory.
pub open spec fn spec_build_dir(
    entries: Seq<EntryModel>,
    src: Seq<char>,
    dest: Seq<char>,
) -> DirBuild
    decreases entries, 1int,
{
    let lvl = spec_build_entries(entries, src, dest);
    let r = spec_build_index(entries, lvl.pages, src, dest);
    DirBuild {
        files: lvl.files.push(r.0),
        pages: lvl.pages,
        new_sources: match r.1 {
            Some(f) => lvl.new_sources.push(f),
            None => lvl.new_sources,
        },
        updated: match r.1 {
            Some(f) => lvl.updated.push(
                EntryModel::File { name: index_name(), content: f.content },
            ),
            None => lvl.updated,
        },
    }
}

/// An output file the caller is to write.
pub struct OutFile {
    pub path: String,
    pub content: String,
}

impl OutFile {
    /// The model of this output file.
    pub open spec fn model(self) -> FileModel {
        FileModel { path: self.path@, content: self.content@ }
    }
}

/// The models of a list of output files, in order.
pub open spec fn file_models(s: Seq<OutFile>) -> Seq<FileModel> {
    s.map(|i: int, f: OutFile| f.model())
}

/// Everything one build returns: the files to write under the output root,
/// the generated pages of the top directory, and the default index sources
/// to persist into the source tree.
pub struct BuildOutput {
    pub files: Vec<OutFile>,
    pub pages: Vec<String>,
    pub new_sources: Vec<OutFile>,
}

/// Generates one directory's index: when the entries hold a user index
/// source its text is taken, otherwise a default one is synthesized and
/// returned for persisting; either way every occurrence of the placeholder
/// is replaced by the link markup for `html_files`.
pub fn build_index_html(
    entries: &Vec<Entry>,
    html_files: &Vec<String>,
    src: &str,
    dest: &str,
) -> (out: (OutFile, Option<OutFile>))
    ensures
        ({
            let r = spec_build_index(models(entries@), html_files.deep_view(), src@, dest@);
            &&& out.0.model() == r.0
            &&& match (out.1, r.1) {
                (Some(a), Some(b)) => a.model() == b,
                (None, None) => true,
                _ => false,
            }
        }),
{
    proof {
        lemma_models(entries@);
    }
    let ghost ems = models(entries@);
    let mut source_text: Option<String> = None;
    let mut i: usize = 0;
    while i < entries.len()
        invariant
            0 <= i <= entries@.len(),
            ems == models(entries@),
            ems.len() == entries@.len(),
            forall|k: int| 0 <= k < entries@.len() ==> ems[k] == entries@[k].model(),
            source_text matches Some(t) ==> has_index(ems) && t@ == index_content(ems),
            source_text is None ==> forall|k: int| 0 <= k < i ==> !is_index_file(ems[k]),
        decreases entries@.len() - i,
    {
        if source_text.is_none() {
            let e = &entries[i];
            match e {
                Entry::File { name, content } => {
                    if eq_str(name.as_str(), "index.html") {
                        source_text = Some(content.clone());
                        proof {
                            lemma_index_content_at(ems, i as int);
                        }
                    }
                },
                Entry::Dir { .. } => {},
            }
        }
        i = i + 1;
    }
    let links = generate_links(html_files, dest);
    let index_path = path_join(dest, "index.html");
    match source_text {
        Some(text) => {
            let final_html = replace_all(text.as_str(), "{{LINKS}}", links.as_str());
            (OutFile { path: index_path, content: final_html }, None)
        },
        None => {
            proof {
                assert(!has_index(ems));
            }
            let default = generate_default_index_html();
            let final_html = replace_all(default.as_str(), "{{LINKS}}", links.as_str());
            (
                OutFile { path: index_path, content: final_html },
                Some(OutFile { path: path_join(src, "index.html"), content: default }),
            )
        },
    }
}

/// When the entries before `i` hold no index source and the entry at `i` is
/// one, it is the one whose text the index generator reads.
pub proof fn lemma_index_content_at(s: Seq<EntryModel>, i: int)
    requires
        0 <= i < s.len(),
        is_index_file(s[i]),
        forall|k: int| 0 <= k < i ==> !is_index_file(s[k]),
    ensures
        has_index(s),
        index_content(s) == entry_content(s[i]),
    decreases i,
{
    if i == 0 {
    } else {
        assert(!is_index_file(s[0]));
        lemma_index_content_at(s.drop_first(), i - 1);
        assert(s.drop_first()[i - 1] == s[i]);
    }
}

/// Builds one directory of the source tree: every entry in order, then the
/// directory's index, exactly as the specification of a directory build
/// states.
pub fn build_html(entries: &Vec<Entry>, src: &str, dest: &str) -> (out: BuildOutput)
    ensures
        ({
            let b = spec_build_dir(models(entries@), src@, dest@);
            &&& file_models(out.files@) == b.files
            &&& out.pages.deep_view() == b.pages
            &&& file_models(out.new_sources@) == b.new_sources
        }),
    decreases entries@,
{
    proof {
        lemma_models(entries@);
    }
    let ghost ems = models(entries@);
    let mut files: Vec<OutFile> = Vec::new();
    let mut pages: Vec<String> = Vec::new();
    let mut new_sources: Vec<OutFile> = Vec::new();
    let mut i: usize = 0;
    proof {
        assert(ems.take(0) =~= Seq::<EntryModel>::empty());
        let lvl0 = spec_build_entries(ems.take(0), src@, dest@);
        assert(file_models(files@) =~= lvl0.files);
        assert(pages.deep_view() =~= lvl0.pages);
        assert(file_models(new_sources@) =~= lvl0.new_sources);
    }
    while i < entries.len()
        invariant
            0 <= i <= entries@.len(),
            ems == models(entries@),
            ems.len() == entries@.len(),
            forall|k: int| 0 <= k < entries@.len() ==> ems[k] == entries@[k].model(),
            file_models(files@) == spec_build_entries(ems.take(i as int), src@, dest@).files,
            pages.deep_view() == spec_build_entries(ems.take(i as int), src@, dest@).pages,
            file_models(new_sources@) == spec_build_entries(
                ems.take(i as int),
                src@,
                dest@,
            ).new_sources,
        decreases entries@.len() - i,
    {
        let ghost prev = spec_build_entries(ems.take(i as int), src@, dest@);
        let e = &entries[i];
        match e {
            Entry::Dir { name, entries: sub } => {
                let sub_src = path_join(src, name.as_str());
                let sub_dest = path_join(dest, name.as_str());
                let mut d = build_html(sub, sub_src.as_str(), sub_dest.as_str());
                files.append(&mut d.files);
                new_sources.append(&mut d.new_sources);
                pages.push(path_join(sub_dest.as_str(), "index.html"));
                proof {
                    let db = spec_build_dir(models(sub@), sub_src@, sub_dest@);
                    assert(file_models(files@) =~= prev.files + db.files);
                    assert(file_models(new_sources@) =~= prev.new_sources + db.new_sources);
                    assert(pages.deep_view() =~= prev.pages.push(
                        spec_path_join(spec_path_join(dest@, name@), index_name()),
                    ));
                }
            },
            Entry::File { name, content } => {
                match classify(name.as_str()) {
                    FileKind::Passthrough => {
                        files.push(
                            OutFile { path: path_join(dest, name.as_str()), content: content.clone() },
                        );
                        proof {
                            assert(file_models(files@) =~= prev.files.push(
                                FileModel { path: spec_path_join(dest@, name@), content: content@ },
                            ));
                        }
                    },
                    FileKind::Ignored => {},
                    FileKind::Content => {
                        let out_name = html_name(name.as_str());
                        let out_path = path_join(dest, out_name.as_str());
                        let page = convert_page(name.as_str(), content.as_str());
                        let page_path = out_path.clone();
                        files.push(OutFile { path: out_path, content: page });
                        pages.push(page_path);
                        proof {
                            assert(file_models(files@) =~= prev.files.push(
                                FileModel {
                                    path: spec_path_join(dest@, html_file_name(name@)),
                                    content: spec_content_page(name@, content@),
                                },
                            ));
                            assert(pages.deep_view() =~= prev.pages.push(
                                spec_path_join(dest@, html_file_name(name@)),
                            ));
                        }
                    },
                }
            },
        }
        proof {
            assert(ems.take(i + 1).drop_last() =~= ems.take(i as int));
            assert(ems.take(i + 1).last() == entries@[i as int].model());
        }
        i = i + 1;
    }
    proof {
        assert(ems.take(entries@.len() as int) =~= ems);
    }
    let idx = build_index_html(entries, &pages, src, dest);
    files.push(idx.0);
    proof {
        let lvl = spec_build_entries(ems, src@, dest@);
        let r = spec_build_index(ems, lvl.pages, src@, dest@);
        assert(file_models(files@) =~= lvl.files.push(r.0));
    }
    match idx.1 {
        Some(ns) => {
            new_sources.push(ns);
            proof {
                let lvl = spec_build_entries(ems, src@, dest@);
                let r = spec_build_index(ems, lvl.pages, src@, dest@);
                assert(r.1 matches Some(f) && file_models(new_sources@) =~= lvl.new_sources.push(
                    f,
                ));
            }
        },
        None => {},
    }
    BuildOutput { files, pages, new_sources }
}

} // verus!
