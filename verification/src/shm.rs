//! Shared memory segments: their names, sizes and ownership.
use vstd::prelude::*;
use crate::error::PlatformError;

verus! {

/// A POSIX shared memory name: the given name with a leading `/` added when missing.
pub open spec fn normalized_name(name: Seq<char>) -> Seq<char> {
    if name.len() > 0 && name[0] == '/' {
        name
    } else {
        seq!['/'] + name
    }
}

/// A mapped shared memory segment: its normalized name, its size in bytes,
/// and whether this process created it (and so removes it when done).
pub struct SharedMemory {
    name: String,
    size: usize,
    is_owner: bool,
}

impl SharedMemory {
    /// The segment's name.
    pub closed spec fn name_spec(&self) -> Seq<char> {
        self.name@
    }

    /// The segment's size in bytes.
    pub closed spec fn size_spec(&self) -> nat {
        self.size as nat
    }

    /// Whether this process owns the segment.
    pub closed spec fn owner_spec(&self) -> bool {
        self.is_owner
    }

    /// The record of a segment mapped under `name` with `size` bytes.
    pub fn from_mapping(name: String, size: usize, is_owner: bool) -> (r: Self)
        ensures
            r.name_spec() == name@,
            r.size_spec() == size,
            r.owner_spec() == is_owner,
    {
        SharedMemory { name, size, is_owner }
    }

    /// Returns the size of the shared memory segment in bytes.
    pub fn size(&self) -> (r: usize)
        ensures
            r == self.size_spec(),
    {
        self.size
    }

    /// Returns the name of the shared memory segment.
    pub fn name(&self) -> (r: &str)
        ensures
            r@ == self.name_spec(),
    {
        self.name.as_str()
    }

    /// Whether this instance owns (and will unlink) the segment.
    pub fn is_owner(&self) -> (r: bool)
        ensures
            r == self.owner_spec(),
    {
        self.is_owner
    }

    /// The POSIX name of a segment: `name` with a leading `/` added when missing.
    pub fn normalize_name(name: &str) -> (r: String)
        ensures
            r@ == normalized_name(name@),
            r@.len() > 0 && r@[0] == '/',
            name@.len() > 0 && name@[0] == '/' ==> r@ == name@,
            !(name@.len() > 0 && name@[0] == '/') ==> r@.len() == name@.len() + 1 && r@.subrange(
                1,
                r@.len() as int,
            ) == name@,
    {
        proof {
            lemma_normalize_keeps_name(name@, name@);
        }
        if name.unicode_len() > 0 && name.get_char(0) == '/' {
            return name.to_owned();
        }
        let slash = "/";
        proof {
            reveal_strlit("/");
        }
        let mut r = slash.to_owned();
        r.append(name);
        r
    }

    /// The length to map for a segment of `size` bytes: a mapping cannot be empty.
    pub fn mapping_len(size: usize) -> (r: Result<usize, PlatformError>)
        ensures
            size > 0 ==> r == Ok::<usize, PlatformError>(size),
            size == 0 ==> (r is Err && (r->Err_0 matches PlatformError::Mmap { reason } && reason@
                == "size must be non-zero"@)),
    {
        if size == 0 {
            return Err(PlatformError::Mmap { reason: "size must be non-zero".to_owned() });
        }
        Ok(size)
    }
}

/// Normalizing a normalized name changes nothing.
pub proof fn lemma_normalize_idempotent(name: Seq<char>)
    ensures
        normalized_name(normalized_name(name)) == normalized_name(name),
{
    if !(name.len() > 0 && name[0] == '/') {
        assert((seq!['/'] + name)[0] == '/');
    }
}

/// Normalizing keeps the whole name: the result starts with `/`; it is the
/// name itself when that starts with `/`, and otherwise `/` followed by the
/// whole name, one character longer. So two names that do not start with `/`
/// normalize to the same name only when they are the same name.
pub proof fn lemma_normalize_keeps_name(a: Seq<char>, b: Seq<char>)
    ensures
        normalized_name(a).len() > 0 && normalized_name(a)[0] == '/',
        a.len() > 0 && a[0] == '/' ==> normalized_name(a) == a,
        !(a.len() > 0 && a[0] == '/') ==> normalized_name(a).len() == a.len() + 1 && normalized_name(
            a,
        ).subrange(1, a.len() + 1int) == a,
        !(a.len() > 0 && a[0] == '/') && !(b.len() > 0 && b[0] == '/') && normalized_name(a)
            == normalized_name(b) ==> a == b,
{
    let na = normalized_name(a);
    let nb = normalized_name(b);
    if !(a.len() > 0 && a[0] == '/') {
        assert(na.subrange(1, a.len() + 1int) =~= a);
    }
    if !(b.len() > 0 && b[0] == '/') {
        assert(nb.subrange(1, b.len() + 1int) =~= b);
    }
}

} // verus!
