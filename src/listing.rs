use vstd::prelude::*;

verus! {

/// A point in time as seconds and nanoseconds since the Unix epoch.
#[derive(Clone, Copy, Debug, PartialEq, Eq, Structural)]
pub struct CreateTime {
    pub seconds: i64,
    pub nanoseconds: i32,
}

/// An entry met while walking the upload root. `created` is `None` when the
/// entry's metadata could not be read.
#[derive(Clone, Debug)]
pub struct WalkEntry {
    pub path: String,
    pub is_file: bool,
    pub created: Option<CreateTime>,
}

/// One stored file as the listing reports it.
#[derive(Clone, Debug)]
pub struct FileInfo {
    pub path: String,
    pub file_name: String,
    pub create_time: CreateTime,
}

/// The last component of a `/`-separated path: what follows its last `/`.
pub open spec fn last_component(p: Seq<char>) -> Seq<char>
    decreases p.len(),
{
    if p.len() == 0 {
        p
    } else if p.last() == '/' {
        Seq::empty()
    } else {
        last_component(p.drop_last()).push(p.last())
    }
}

/// The base name of a path.
pub fn file_name_of(path: &str) -> (r: String)
    ensures
        r@ == last_component(path@),
{
    let p = Ghost(path@);
    let n = path.unicode_len();
    let mut start: usize = 0;
    let mut i: usize = 0;
    while i < n
        invariant
            n == p@.len(),
            p@ == path@,
            start <= i <= n,
            last_component(p@.subrange(0, i as int)) == p@.subrange(start as int, i as int),
        decreases n - i,
    {
        let c = path.get_char(i);
        proof {
            assert(p@.subrange(0, i + 1).drop_last() == p@.subrange(0, i as int));
            assert(p@.subrange(0, i + 1).last() == c);
        }
        if c == '/' {
            start = i + 1;
        }
        i = i + 1;
        proof {
            assert(p@.subrange(start as int, i as int) == if c == '/' {
                Seq::<char>::empty()
            } else {
                p@.subrange(start as int, i - 1).push(c)
            });
        }
    }
    proof {
        assert(p@.subrange(0, n as int) =~= p@);
    }
    String::from_str(path.substring_char(start, n))
}

/// Whether an entry is listed: a regular file whose metadata could be read.
pub open spec fn is_listed(e: WalkEntry) -> bool {
    e.is_file && e.created is Some
}

/// Whether `info` reports entry `e`.
pub open spec fn reports(info: FileInfo, e: WalkEntry) -> bool {
    &&& info.path@ == e.path@
    &&& info.file_name@ == last_component(e.path@)
    &&& e.created == Some(info.create_time)
}

/// The listing of the entries met while walking the upload root: one record
/// per regular file, in walking order, with its path, base name and creation
/// time. Entries that are not regular files or whose metadata could not be
/// read are skipped.
pub fn list(entries: &Vec<WalkEntry>) -> (r: Vec<FileInfo>)
    ensures
        r@.len() == entries@.filter(|e: WalkEntry| is_listed(e)).len(),
        forall|k: int|
            0 <= k < r@.len() ==> reports(
                #[trigger] r@[k],
                entries@.filter(|e: WalkEntry| is_listed(e))[k],
            ),
{
    let ghost keep = |e: WalkEntry| is_listed(e);
    let mut files: Vec<FileInfo> = Vec::new();
    let mut i: usize = 0;
    while i < entries.len()
        invariant
            keep == (|e: WalkEntry| is_listed(e)),
            i <= entries@.len(),
            files@.len() == entries@.subrange(0, i as int).filter(keep).len(),
            forall|k: int|
                0 <= k < files@.len() ==> reports(
                    #[trigger] files@[k],
                    entries@.subrange(0, i as int).filter(keep)[k],
                ),
        decreases entries@.len() - i,
    {
        let e = &entries[i];
        proof {
            reveal(Seq::filter);
            assert(entries@.subrange(0, i + 1).drop_last() == entries@.subrange(0, i as int));
        }
        if e.is_file {
            match e.created {
                Some(t) => {
                    files.push(
                        FileInfo {
                            path: String::from_str(e.path.as_str()),
                            file_name: file_name_of(e.path.as_str()),
                            create_time: t,
                        },
                    );
                },
                None => {},
            }
        }
        i = i + 1;
    }
    proof {
        assert(entries@.subrange(0, entries@.len() as int) =~= entries@);
    }
    files
}

} // verus!
