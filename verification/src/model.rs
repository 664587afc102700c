use vstd::prelude::*;

verus! {

/// One advertised file: the origin that serves it (absent for a local file),
/// the normalized directory path that holds it, an optional explicit link,
/// its name, and its size in bytes.
#[derive(Clone)]
pub struct File_ {
    pub origin: Option<String>,
    pub parent: String,
    pub url: Option<String>,
    pub name: String,
    pub size: u64,
}

/// Mathematical image of a `File_`: each string seen as its character sequence.
pub ghost struct FileV {
    pub origin: Option<Seq<char>>,
    pub parent: Seq<char>,
    pub url: Option<Seq<char>>,
    pub name: Seq<char>,
    pub size: u64,
}

impl View for File_ {
    type V = FileV;

    open spec fn view(&self) -> FileV {
        FileV {
            origin: self.origin.deep_view(),
            parent: self.parent@,
            url: self.url.deep_view(),
            name: self.name@,
            size: self.size,
        }
    }
}

impl DeepView for File_ {
    type V = FileV;

    open spec fn deep_view(&self) -> FileV {
        self.view()
    }
}

/// Body of one federation push or withdrawal: the origin it speaks for and,
/// for a push that carries content, that origin's full inventory.
#[derive(Clone)]
pub struct Payload {
    pub origin: String,
    pub files: Option<Vec<File_>>,
}

/// Mathematical image of a `Payload`.
pub ghost struct PayloadV {
    pub origin: Seq<char>,
    pub files: Option<Seq<FileV>>,
}

impl View for Payload {
    type V = PayloadV;

    open spec fn view(&self) -> PayloadV {
        PayloadV { origin: self.origin.deep_view(), files: self.files.deep_view() }
    }
}

impl DeepView for Payload {
    type V = PayloadV;

    open spec fn deep_view(&self) -> PayloadV {
        self.view()
    }
}

/// Process configuration, loaded once at startup and immutable afterwards.
#[derive(Clone)]
pub struct Env {
    pub host: String,
    pub port: u16,
    pub workers: usize,
    pub origin: String,
    pub relay_url: String,
    pub token: String,
}

fn copy_opt_string(o: &Option<String>) -> (r: Option<String>)
    ensures
        r.deep_view() == o.deep_view(),
{
    match o {
        Some(s) => Some(s.clone()),
        None => None,
    }
}

/// A copy of a descriptor whose image is provably the original's.
pub fn copy_file(f: &File_) -> (r: File_)
    ensures
        r@ == f@,
{
    File_ {
        origin: copy_opt_string(&f.origin),
        parent: f.parent.clone(),
        url: copy_opt_string(&f.url),
        name: f.name.clone(),
        size: f.size,
    }
}

} // verus!
