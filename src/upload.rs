use vstd::prelude::*;

verus! {

/// What `sanitize_filename` makes of a file name: path separators, reserved
/// and control characters removed, names made only of dots emptied, and the
/// result cut to 255 bytes.
pub uninterp spec fn sanitized(name: Seq<char>) -> Seq<char>;

/// Relies on `sanitize_filename::sanitize_with_options` with the options that
/// do not depend on the platform: its result depends on the name alone, holds
/// no `/` (the crate's illegal-character pattern removes it and nothing adds
/// one back), and is neither `.` nor `..` (names made only of dots are
/// emptied, and a truncated name keeps at least 252 bytes).
#[verifier::external_body]
fn sanitize(name: &str) -> (r: String)
    ensures
        r@ == sanitized(name@),
        !r@.contains('/'),
        r@ != "."@,
        r@ != ".."@,
{
    sanitize_filename::sanitize_with_options(
        name,
        sanitize_filename::Options { windows: false, truncate: true, replacement: "" },
    )
}

pub open spec fn is_lower_hex_or_hyphen(c: char) -> bool {
    ('0' <= c && c <= '9') || ('a' <= c && c <= 'f') || c == '-'
}

/// Relies on `uuid::Uuid::new_v4` and on the `Display` of `Uuid`, which
/// writes the hyphenated lower-case form: 36 characters, each a hex digit or
/// a hyphen. The value is random, so nothing else is known of it.
#[verifier::external_body]
fn random_uuid() -> (r: String)
    ensures
        r@.len() == 36,
        forall|i: int| 0 <= i < r@.len() ==> is_lower_hex_or_hyphen(#[trigger] r@[i]),
{
    uuid::Uuid::new_v4().to_string()
}

/// One file part of a multipart upload.
#[derive(Clone, Debug)]
pub struct UploadPart {
    pub file_name: Option<String>,
    pub contents: Vec<u8>,
}

/// The file parts of one upload request, in the order they came.
#[derive(Clone, Debug)]
pub struct FileUpload {
    pub files: Vec<UploadPart>,
}

/// Why an upload is refused as a whole, before anything is written.
#[derive(Clone, Copy, Debug, PartialEq, Eq, Structural)]
pub enum UploadError {
    EmptyBatch,
    MissingFileName,
}

impl UploadError {
    /// The HTTP status of the refusal: bad request.
    pub fn status(&self) -> (r: u16)
        ensures
            r == 400,
    {
        400
    }

    pub fn message(&self) -> (r: String)
        ensures
            *self == UploadError::EmptyBatch ==> r@ == "upload file is empty"@,
            *self == UploadError::MissingFileName ==> r@ == "upload file name is empty"@,
    {
        match self {
            UploadError::EmptyBatch => String::from_str("upload file is empty"),
            UploadError::MissingFileName => String::from_str("upload file name is empty"),
        }
    }
}

pub open spec fn all_named(parts: Seq<UploadPart>) -> bool {
    forall|i: int| 0 <= i < parts.len() ==> (#[trigger] parts[i]).file_name is Some
}

/// Checks an upload and gives the sanitized name of each of its files, in
/// order. An empty batch, or one with a part that has no file name, is
/// refused as a whole, so that nothing of it is written.
pub fn upload(batch: &FileUpload) -> (r: Result<Vec<String>, UploadError>)
    ensures
        batch.files@.len() == 0 <==> r == Err::<Vec<String>, UploadError>(UploadError::EmptyBatch),
        batch.files@.len() > 0 && !all_named(batch.files@) <==> r == Err::<Vec<String>, UploadError>(
            UploadError::MissingFileName,
        ),
        r is Ok ==> all_named(batch.files@),
        r matches Ok(names) ==> names@.len() == batch.files@.len() && forall|i: int|
            0 <= i < names@.len() ==> (#[trigger] names@[i])@ == sanitized(
                batch.files@[i].file_name->Some_0@,
            ),
{
    let files = &batch.files;
    assert(files@ == batch.files@);
    if files.len() == 0 {
        return Err(UploadError::EmptyBatch);
    }
    let mut names: Vec<String> = Vec::new();
    let mut i: usize = 0;
    while i < files.len()
        invariant
            files@ == batch.files@,
            files@.len() > 0,
            i <= files@.len(),
            names@.len() == i,
            forall|j: int| 0 <= j < i ==> (#[trigger] files@[j]).file_name is Some,
            forall|j: int|
                0 <= j < i ==> (#[trigger] names@[j])@ == sanitized(files@[j].file_name->Some_0@),
        decreases files@.len() - i,
    {
        match &files[i].file_name {
            Some(name) => {
                names.push(sanitize(name.as_str()));
            },
            None => {
                assert(!all_named(files@)) by {
                    assert(files@[i as int].file_name is None);
                }
                return Err(UploadError::MissingFileName);
            },
        }
        i = i + 1;
    }
    Ok(names)
}

/// The name a file is stored under: `name`, or, when a file of that name
/// exists already, `name` followed by a dot and `suffix`.
pub open spec fn stored_name(name: Seq<char>, taken: bool, suffix: Seq<char>) -> Seq<char> {
    if taken {
        name + "."@ + suffix
    } else {
        name
    }
}

/// The stored name for a given suffix.
pub fn storage_name_with(name: &str, taken: bool, suffix: &str) -> (r: String)
    ensures
        r@ == stored_name(name@, taken, suffix@),
{
    let mut r = String::from_str(name);
    if taken {
        r.append(".");
        r.append(suffix);
    }
    r
}

/// The name a sanitized file name is stored under, given whether a file of
/// that name exists already: the name itself, or the name followed by a dot
/// and a fresh random identifier, so that no existing file is overwritten.
pub fn storage_name(name: &str, taken: bool) -> (r: String)
    ensures
        !taken ==> r@ == name@,
        taken ==> exists|suffix: Seq<char>|
            suffix.len() == 36 && r@ == #[trigger] stored_name(name@, true, suffix),
        !name@.contains('/') ==> !r@.contains('/'),
{
    if taken {
        let suffix = random_uuid();
        proof {
            reveal_strlit(".");
            let s = name@ + "."@ + suffix@;
            if !name@.contains('/') {
                assert forall|i: int| 0 <= i < s.len() implies s[i] != '/' by {
                    if i < name@.len() {
                        assert(s[i] == name@[i]);
                    } else if i > name@.len() {
                        assert(s[i] == suffix@[i - name@.len() - 1]);
                        assert(is_lower_hex_or_hyphen(suffix@[i - name@.len() - 1]));
                    }
                }
            }
        }
        storage_name_with(name, true, suffix.as_str())
    } else {
        storage_name_with(name, false, "")
    }
}

/// A file stored while its name is taken never gets that name: two uploads of
/// one name end up under two names.
pub proof fn lemma_renamed_differs(name: Seq<char>, suffix: Seq<char>)
    ensures
        stored_name(name, true, suffix) != stored_name(name, false, suffix),
{
    assert(stored_name(name, true, suffix).len() > name.len()) by {
        reveal_strlit(".");
    }
}

} // verus!
