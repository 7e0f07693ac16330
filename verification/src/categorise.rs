//! Sorting files into folders by their extension.

use crate::chars::{lowercase, same_text, text_of, views};
use crate::names::{extension, extension_of};
use crate::ranking::{is_ranking, rank_descending, ranking};
use crate::words::{count_occurrences, distinct, distinct_words, occurrences};
use vstd::prelude::*;

verus! {

/// A category of files: the folder's name and the extensions that go there.
#[derive(Debug, Clone)]
pub struct Category {
    pub name: String,
    pub extensions: Vec<String>,
}

/// The mathematical value of a `Category`.
pub struct CategoryModel {
    pub name: Seq<char>,
    pub extensions: Seq<Seq<char>>,
}

impl View for Category {
    type V = CategoryModel;

    open spec fn view(&self) -> CategoryModel {
        CategoryModel { name: self.name@, extensions: views(self.extensions@) }
    }
}

/// The values of a list of categories.
pub open spec fn category_views(table: Seq<Category>) -> Seq<CategoryModel> {
    Seq::new(table.len(), |i: int| table[i]@)
}

/// The default categories, in the order in which they are looked through.
pub open spec fn default_categories() -> Seq<CategoryModel> {
    seq![
        CategoryModel {
            name: "images"@,
            extensions: seq![
                "jpg"@,
                "jpeg"@,
                "png"@,
                "gif"@,
                "bmp"@,
                "svg"@,
                "webp"@,
                "tiff"@,
                "ico"@,
                "heic"@,
                "raw"@,
            ],
        },
        CategoryModel {
            name: "videos"@,
            extensions: seq![
                "mp4"@,
                "avi"@,
                "mkv"@,
                "mov"@,
                "wmv"@,
                "flv"@,
                "webm"@,
                "m4v"@,
                "3gp"@,
                "mpg"@,
                "mpeg"@,
            ],
        },
        CategoryModel {
            name: "audio"@,
            extensions: seq![
                "mp3"@,
                "wav"@,
                "flac"@,
                "aac"@,
                "ogg"@,
                "wma"@,
                "m4a"@,
                "opus"@,
                "aiff"@,
            ],
        },
        CategoryModel {
            name: "documents"@,
            extensions: seq![
                "pdf"@,
                "doc"@,
                "docx"@,
                "txt"@,
                "rtf"@,
                "odt"@,
                "pages"@,
                "tex"@,
                "md"@,
                "epub"@,
            ],
        },
        CategoryModel {
            name: "spreadsheets"@,
            extensions: seq!["xls"@, "xlsx"@, "csv"@, "ods"@, "numbers"@],
        },
        CategoryModel { name: "presentations"@, extensions: seq!["ppt"@, "pptx"@, "odp"@, "key"@] },
        CategoryModel {
            name: "archives"@,
            extensions: seq![
                "zip"@,
                "rar"@,
                "7z"@,
                "tar"@,
                "gz"@,
                "bz2"@,
                "xz"@,
                "dmg"@,
                "pkg"@,
                "deb"@,
                "rpm"@,
            ],
        },
        CategoryModel {
            name: "code"@,
            extensions: seq![
                "rs"@,
                "py"@,
                "js"@,
                "ts"@,
                "html"@,
                "css"@,
                "cpp"@,
                "c"@,
                "h"@,
                "java"@,
                "go"@,
                "php"@,
                "rb"@,
                "swift"@,
                "kt"@,
                "dart"@,
                "scala"@,
                "sh"@,
                "bat"@,
                "ps1"@,
            ],
        },
        CategoryModel {
            name: "data"@,
            extensions: seq![
                "json"@,
                "xml"@,
                "yaml"@,
                "yml"@,
                "toml"@,
                "ini"@,
                "cfg"@,
                "conf"@,
                "sql"@,
                "db"@,
            ],
        },
        CategoryModel {
            name: "executables"@,
            extensions: seq![
                "exe"@,
                "msi"@,
                "app"@,
                "deb"@,
                "rpm"@,
                "dmg"@,
                "pkg"@,
                "appimage"@,
            ],
        },
    ]
}

fn owned(items: Vec<&'static str>) -> (list: Vec<String>)
    ensures
        list@.len() == items@.len(),
        forall|i: int| 0 <= i < items@.len() ==> (#[trigger] list@[i])@ == items@[i]@,
{
    let mut list: Vec<String> = Vec::new();
    let mut i: usize = 0;
    while i < items.len()
        invariant
            i <= items.len(),
            list@.len() == i,
            forall|j: int| 0 <= j < i ==> (#[trigger] list@[j])@ == items@[j]@,
        decreases items.len() - i,
    {
        list.push(items[i].to_owned());
        i += 1;
    }
    list
}

fn category(name: &'static str, extensions: Vec<&'static str>) -> (c: Category)
    ensures
        c@.name == name@,
        c@.extensions.len() == extensions@.len(),
        forall|i: int| 0 <= i < extensions@.len() ==> (#[trigger] c@.extensions[i]) == extensions@[i]@,
{
    Category { name: name.to_owned(), extensions: owned(extensions) }
}

/// The default categories with their extensions.
pub fn create_extension_map() -> (table: Vec<Category>)
    ensures
        category_views(table@) == default_categories(),
{
    let mut table: Vec<Category> = Vec::new();
    let images = category(
        "images",
        vec!["jpg", "jpeg", "png", "gif", "bmp", "svg", "webp", "tiff", "ico", "heic", "raw"],
    );
    assert(images@.extensions =~= default_categories()[0].extensions);
    table.push(images);
    let videos = category(
        "videos",
        vec!["mp4", "avi", "mkv", "mov", "wmv", "flv", "webm", "m4v", "3gp", "mpg", "mpeg"],
    );
    assert(videos@.extensions =~= default_categories()[1].extensions);
    table.push(videos);
    let audio = category(
        "audio",
        vec!["mp3", "wav", "flac", "aac", "ogg", "wma", "m4a", "opus", "aiff"],
    );
    assert(audio@.extensions =~= default_categories()[2].extensions);
    table.push(audio);
    let documents = category(
        "documents",
        vec!["pdf", "doc", "docx", "txt", "rtf", "odt", "pages", "tex", "md", "epub"],
    );
    assert(documents@.extensions =~= default_categories()[3].extensions);
    table.push(documents);
    let spreadsheets = category("spreadsheets", vec!["xls", "xlsx", "csv", "ods", "numbers"]);
    assert(spreadsheets@.extensions =~= default_categories()[4].extensions);
    table.push(spreadsheets);
    let presentations = category("presentations", vec!["ppt", "pptx", "odp", "key"]);
    assert(presentations@.extensions =~= default_categories()[5].extensions);
    table.push(presentations);
    let archives = category(
        "archives",
        vec!["zip", "rar", "7z", "tar", "gz", "bz2", "xz", "dmg", "pkg", "deb", "rpm"],
    );
    assert(archives@.extensions =~= default_categories()[6].extensions);
    table.push(archives);
    let code = category(
        "code",
        vec![
            "rs",
            "py",
            "js",
            "ts",
            "html",
            "css",
            "cpp",
            "c",
            "h",
            "java",
            "go",
            "php",
            "rb",
            "swift",
            "kt",
            "dart",
            "scala",
            "sh",
            "bat",
            "ps1",
        ],
    );
    assert(code@.extensions =~= default_categories()[7].extensions);
    table.push(code);
    let data = category(
        "data",
        vec!["json", "xml", "yaml", "yml", "toml", "ini", "cfg", "conf", "sql", "db"],
    );
    assert(data@.extensions =~= default_categories()[8].extensions);
    table.push(data);
    let executables = category(
        "executables",
        vec!["exe", "msi", "app", "deb", "rpm", "dmg", "pkg", "appimage"],
    );
    assert(executables@.extensions =~= default_categories()[9].extensions);
    table.push(executables);
    assert(category_views(table@) =~= default_categories());
    table
}

/// The name of the first category of the table that lists the extension, if
/// one does.
pub open spec fn category_in(table: Seq<CategoryModel>, ext: Seq<char>) -> Option<Seq<char>>
    decreases table.len(),
{
    if table.len() == 0 {
        None
    } else if table[0].extensions.contains(ext) {
        Some(table[0].name)
    } else {
        category_in(table.drop_first(), ext)
    }
}

/// The category of an extension: that of the table, or `extras`.
pub open spec fn category_of(table: Seq<CategoryModel>, ext: Seq<char>) -> Seq<char> {
    match category_in(table, ext) {
        Some(name) => name,
        None => "extras"@,
    }
}

fn lists(extensions: &Vec<String>, ext: &str) -> (r: bool)
    ensures
        r == views(extensions@).contains(ext@),
{
    let mut i: usize = 0;
    while i < extensions.len()
        invariant
            i <= extensions.len(),
            forall|j: int| 0 <= j < i ==> views(extensions@)[j] != ext@,
        decreases extensions.len() - i,
    {
        assert(views(extensions@)[i as int] == extensions@[i as int]@);
        if same_text(extensions[i].as_str(), ext) {
            return true;
        }
        i += 1;
    }
    false
}

/// The category of an extension in a table of categories: the first that lists
/// it, or `extras` where none does.
pub fn category_for_extension(table: &Vec<Category>, ext: &str) -> (name: String)
    ensures
        name@ == category_of(category_views(table@), ext@),
{
    let ghost all = category_views(table@);
    assert(all.skip(0) == all);
    let mut i: usize = 0;
    while i < table.len()
        invariant
            i <= table.len(),
            all == category_views(table@),
            category_in(all, ext@) == category_in(all.skip(i as int), ext@),
        decreases table.len() - i,
    {
        proof {
            let rest = all.skip(i as int);
            assert(rest[0] == table@[i as int]@);
            assert(rest.drop_first() == all.skip(i + 1));
        }
        if lists(&table[i].extensions, ext) {
            return table[i].name.clone();
        }
        i += 1;
    }
    "extras".to_owned()
}

/// Whether a file name is that of a system file, which is left where it is.
pub open spec fn is_system_file(name: Seq<char>) -> bool {
    ||| name == ".DS_Store"@
    ||| name == "Thumbs.db"@
    ||| name == ".git"@
    ||| name == ".gitignore"@
    ||| name == "desktop.ini"@
    ||| name == ".localized"@
}

/// Whether the file is a system file, which is left where it is.
pub fn should_skip_file(filename: &str) -> (r: bool)
    ensures
        r == is_system_file(filename@),
{
    same_text(filename, ".DS_Store") || same_text(filename, "Thumbs.db") || same_text(
        filename,
        ".git",
    ) || same_text(filename, ".gitignore") || same_text(filename, "desktop.ini") || same_text(
        filename,
        ".localized",
    )
}

/// The extension of a file name in lower case, or `no_extension`.
pub open spec fn lowered_extension(name: Seq<char>) -> Seq<char> {
    match extension(name) {
        Some(e) => lowercase(e),
        None => "no_extension"@,
    }
}

/// The extension of a file name in lower case, or `no_extension`.
pub fn lowered_extension_of(filename: &str) -> (ext: String)
    ensures
        ext@ == lowered_extension(filename@),
{
    match extension_of(filename) {
        Some(e) => e.as_str().to_lowercase(),
        None => "no_extension".to_owned(),
    }
}

/// The folder for a file: none for a system file, else the category of its
/// extension.
pub open spec fn folder_of(table: Seq<CategoryModel>, name: Seq<char>) -> Option<Seq<char>> {
    if is_system_file(name) {
        None
    } else {
        Some(category_of(table, lowered_extension(name)))
    }
}

/// The folder into which a file is sorted by its extension, or none for a
/// system file.
pub fn categorise_file(table: &Vec<Category>, filename: &str) -> (folder: Option<String>)
    ensures
        text_of(folder) == folder_of(category_views(table@), filename@),
{
    if should_skip_file(filename) {
        None
    } else {
        let ext = lowered_extension_of(filename);
        Some(category_for_extension(table, ext.as_str()))
    }
}

/// A folder and the number of files that went there.
#[derive(Debug, Clone, PartialEq, Eq)]
pub struct FolderCount {
    pub folder: String,
    pub files: usize,
}

/// How often each of the distinct folders occurs, by position.
pub open spec fn folder_counts(folders: Seq<Seq<char>>) -> Seq<usize> {
    Seq::new(distinct(folders).len(), |i: int| occurrences(folders, distinct(folders)[i]) as usize)
}

/// Whether `summary` lists each folder once with the number of files that went
/// there, the fullest folder first and, among equally full ones, the one that
/// was used first.
pub open spec fn is_summary(summary: Seq<FolderCount>, folders: Seq<Seq<char>>) -> bool {
    let order = ranking(folder_counts(folders));
    &&& summary.len() == distinct(folders).len()
    &&& forall|i: int|
        0 <= i < summary.len() ==> (#[trigger] summary[i]).folder@ == distinct(folders)[order[i] as int]
            && summary[i].files == occurrences(folders, distinct(folders)[order[i] as int])
}

/// The summary of a run: for each folder the number of files that went there,
/// the fullest first. `folders` holds the folder of each file that was moved.
pub fn summarize(folders: &Vec<String>) -> (summary: Vec<FolderCount>)
    ensures
        is_summary(summary@, views(folders@)),
{
    let names = distinct_words(folders);
    let mut counts: Vec<usize> = Vec::new();
    let mut i: usize = 0;
    while i < names.len()
        invariant
            i <= names.len(),
            views(names@) == distinct(views(folders@)),
            counts@.len() == i,
            forall|j: int|
                0 <= j < i ==> counts@[j] == occurrences(views(folders@), views(names@)[j]),
        decreases names.len() - i,
    {
        assert(views(names@)[i as int] == names@[i as int]@);
        counts.push(count_occurrences(folders, &names[i]));
        i += 1;
    }
    assert(counts@ =~= folder_counts(views(folders@)));
    let order = rank_descending(&counts);
    let mut summary: Vec<FolderCount> = Vec::new();
    let mut i: usize = 0;
    while i < order.len()
        invariant
            i <= order.len(),
            order@ == ranking(folder_counts(views(folders@))),
            is_ranking(counts@, order@),
            counts@.len() == names@.len(),
            forall|j: int|
                0 <= j < counts@.len() ==> counts@[j] == occurrences(
                    views(folders@),
                    views(names@)[j],
                ),
            views(names@) == distinct(views(folders@)),
            summary@.len() == i,
            forall|j: int|
                0 <= j < i ==> (#[trigger] summary@[j]).folder@ == distinct(views(folders@))[order@[j] as int]
                    && summary@[j].files == occurrences(
                    views(folders@),
                    distinct(views(folders@))[order@[j] as int],
                ),
        decreases order.len() - i,
    {
        let at = order[i];
        assert(views(names@)[at as int] == names@[at as int]@);
        summary.push(FolderCount { folder: names[at].clone(), files: counts[at] });
        i += 1;
    }
    summary
}

} // verus!
