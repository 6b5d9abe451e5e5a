//! Paths as text: joining, and the parts that the standard library finds in them.
use vstd::prelude::*;
use vstd::string::StrSliceExecFns;
use vstd::string::StringExecFns;

verus! {

/// A path below a base: an absolute path stands for itself, and one separator parts the two.
pub open spec fn joined_path(base: Seq<char>, name: Seq<char>) -> Seq<char> {
    if name.len() > 0 && name[0] == '/' {
        name
    } else if base.len() == 0 || base.last() == '/' {
        base + name
    } else {
        base + seq!['/'] + name
    }
}

/// A path below a base.
pub fn join_path(base: &str, name: &str) -> (r: String)
    ensures
        r@ == joined_path(base@, name@),
{
    if is_absolute(name) {
        return name.to_owned();
    }
    let n: usize = base.unicode_len();
    if n == 0 || base.get_char(n - 1) == '/' {
        base.to_owned().concat(name)
    } else {
        proof {
            reveal_strlit("/");
            assert("/"@ =~= seq!['/']);
        }
        base.to_owned().concat("/").concat(name)
    }
}

/// Whether a path starts at the root.
pub fn is_absolute(path: &str) -> (r: bool)
    ensures
        r == (path@.len() > 0 && path@[0] == '/'),
{
    path.unicode_len() > 0 && path.get_char(0) == '/'
}

/// What the standard library gives as the parent of a path.
pub uninterp spec fn parent_of(path: Seq<char>) -> Option<Seq<char>>;

/// What the standard library gives as the last component of a path.
pub uninterp spec fn file_name_of(path: Seq<char>) -> Option<Seq<char>>;

/// The path without its last component, as `std::path::Path::parent` gives it: none for the empty
/// path and the root. Which path it is depends on the given text alone; how repeated separators and
/// `.` components are skipped is left to that function.
#[verifier::external_body]
pub(crate) fn parent(path: &str) -> (r: Option<String>)
    ensures
        crate::text::text_opt(r) == parent_of(path@),
{
    match std::path::Path::new(path).parent() {
        Some(dir) => Some(dir.to_string_lossy().into_owned()),
        None => None,
    }
}

/// The last component of a path, as `std::path::Path::file_name` gives it: none where the path ends in
/// the root or in `..`. Which text it is depends on the given text alone; how trailing separators and
/// `.` components are skipped is left to that function.
#[verifier::external_body]
pub(crate) fn file_name(path: &str) -> (r: Option<String>)
    ensures
        crate::text::text_opt(r) == file_name_of(path@),
{
    match std::path::Path::new(path).file_name() {
        Some(name) => Some(name.to_string_lossy().into_owned()),
        None => None,
    }
}

/// A name below a base has one separator in front of it, whether the base ends in one or not; an absolute
/// name stands for itself, and so does any name where there is no base.
pub proof fn law_joined_path(base: Seq<char>, name: Seq<char>)
    ensures
        joined_path(base, seq!['/'] + name) == seq!['/'] + name,
        joined_path(Seq::empty(), name) == name,
        name.len() == 0 || name[0] != '/' ==> joined_path(base + seq!['/'], name) == base + seq!['/']
            + name,
        (name.len() == 0 || name[0] != '/') && base.len() > 0 && base.last() != '/' ==> joined_path(
            base,
            name,
        ) == base + seq!['/'] + name,
{
    assert(Seq::<char>::empty() + name =~= name);
    assert((base + seq!['/']).last() == '/');
}

} // verus!
