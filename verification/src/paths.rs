//! Path-name helpers for the backup facade.
//!
//! Include paths are stored in the archive under their final path
//! component, so two include paths with the same final component would
//! collide; the facade rejects that before any work is done.

use vstd::prelude::*;
use vstd::string::StringExecFns;
use vstd::string::StrSliceExecFns;

use crate::types::BackupError;
use crate::types::BackupResult;

verus! {

/// The path without its trailing slashes.
pub open spec fn trim_slashes(s: Seq<char>) -> Seq<char>
    decreases s.len(),
{
    if s.len() > 0 && s.last() == '/' {
        trim_slashes(s.drop_last())
    } else {
        s
    }
}

/// The suffix of a path after its last slash.
pub open spec fn after_last_slash(s: Seq<char>) -> Seq<char>
    decreases s.len(),
{
    if s.len() == 0 {
        s
    } else if s.last() == '/' {
        Seq::empty()
    } else {
        after_last_slash(s.drop_last()).push(s.last())
    }
}

/// The last component of a slash-separated path: its last nonempty
/// slash-free segment, or `None` when there is no such segment.
pub open spec fn last_component_spec(s: Seq<char>) -> Option<Seq<char>> {
    let name = after_last_slash(trim_slashes(s));
    if name.len() == 0 {
        None
    } else {
        Some(name)
    }
}

/// Gets the last component of a path.
pub fn last_path_component(path: &str) -> (r: Option<String>)
    ensures
        match r {
            Some(name) => last_component_spec(path@) == Some(name@),
            None => last_component_spec(path@) is None,
        },
{
    let n = path.unicode_len();
    proof {
        assert(path@.take(n as int) =~= path@);
    }
    let mut end = n;
    while end > 0 && path.get_char(end - 1) == '/'
        invariant
            end <= n,
            n == path@.len(),
            trim_slashes(path@) == trim_slashes(path@.take(end as int)),
        decreases end,
    {
        proof {
            assert(path@.take(end as int).drop_last() =~= path@.take(end as int - 1));
        }
        end = end - 1;
    }
    proof {
        assert(trim_slashes(path@.take(end as int)) == path@.take(end as int));
    }
    if end == 0 {
        proof {
            assert(path@.take(0) =~= Seq::<char>::empty());
        }
        return None;
    }
    let ghost t = path@.take(end as int);
    let mut start = end;
    while start > 0 && path.get_char(start - 1) != '/'
        invariant
            start <= end <= n,
            n == path@.len(),
            t == path@.take(end as int),
            after_last_slash(t) == after_last_slash(path@.take(start as int)) + path@.subrange(
                start as int,
                end as int,
            ),
        decreases start,
    {
        proof {
            let s = path@;
            assert(s.take(start as int).drop_last() =~= s.take(start as int - 1));
            assert(after_last_slash(s.take(start as int)) == after_last_slash(
                s.take(start as int - 1),
            ).push(s[start as int - 1]));
            assert(after_last_slash(s.take(start as int - 1)) + s.subrange(
                start as int - 1,
                end as int,
            ) =~= after_last_slash(s.take(start as int - 1)).push(s[start as int - 1]) + s.subrange(
                start as int,
                end as int,
            ));
        }
        start = start - 1;
    }
    proof {
        assert(after_last_slash(path@.take(start as int)) =~= Seq::<char>::empty());
        assert(after_last_slash(t) =~= path@.subrange(start as int, end as int));
        assert(after_last_slash(t).len() > 0) by {
            assert(t.last() != '/');
        }
    }
    let name = path.substring_char(start, end);
    Some(name.to_owned())
}

/// Returns the provided path with `.tmp` added to it.
pub fn tmp_file_for(path: &str) -> (r: String)
    ensures
        r@ == path@ + ".tmp"@,
{
    let mut tmp_path = path.to_owned();
    tmp_path.append(".tmp");
    tmp_path
}

/// Checks that there are no duplicate names in the paths included in a
/// backup: an include path is archived under its last component, so two
/// include paths with the same last component cannot coexist.
pub fn validate_no_duplicate_include_names(include_paths: &Vec<String>) -> (r: BackupResult<()>)
    requires
        forall|i: int|
            0 <= i < include_paths@.len() ==> (#[trigger] last_component_spec(
                include_paths@[i]@,
            )) is Some,
    ensures
        match r {
            Ok(_) => forall|i: int, j: int|
                0 <= i < j < include_paths@.len() ==> #[trigger] last_component_spec(
                    include_paths@[i]@,
                ) != #[trigger] last_component_spec(include_paths@[j]@),
            Err(e) => {
                &&& e matches BackupError::DuplicateIncludeName(name)
                &&& exists|i: int, j: int|
                    0 <= i < j < include_paths@.len() && #[trigger] last_component_spec(
                        include_paths@[i]@,
                    ) == Some(name@) && #[trigger] last_component_spec(include_paths@[j]@) == Some(
                        name@,
                    )
            },
        },
{
    let n = include_paths.len();
    let mut names: Vec<String> = Vec::new();
    let mut k: usize = 0;
    while k < n
        invariant
            k <= n == include_paths@.len(),
            names@.len() == k,
            forall|i: int|
                0 <= i < include_paths@.len() ==> (#[trigger] last_component_spec(
                    include_paths@[i]@,
                )) is Some,
            forall|i: int|
                0 <= i < k ==> last_component_spec(include_paths@[i]@) == Some(
                    #[trigger] names@[i]@,
                ),
        decreases n - k,
    {
        match last_path_component(include_paths[k].as_str()) {
            Some(name) => {
                names.push(name);
            },
            None => {
                proof {
                    assert(false);
                }
                return Ok(());
            },
        }
        k = k + 1;
    }
    if n == 0 {
        return Ok(());
    }
    let mut i: usize = 1;
    while i < n
        invariant
            1 <= i,
            i <= n == include_paths@.len(),
            names@.len() == n,
            forall|a: int|
                0 <= a < n ==> last_component_spec(include_paths@[a]@) == Some(
                    #[trigger] names@[a]@,
                ),
            forall|a: int, b: int|
                0 <= a < b < i ==> #[trigger] last_component_spec(include_paths@[a]@)
                    != #[trigger] last_component_spec(include_paths@[b]@),
        decreases n - i,
    {
        let mut j: usize = 0;
        while j < i
            invariant
                j <= i < n == include_paths@.len(),
                names@.len() == n,
                forall|a: int|
                    0 <= a < n ==> last_component_spec(include_paths@[a]@) == Some(
                        #[trigger] names@[a]@,
                    ),
                forall|b: int|
                    0 <= b < j ==> #[trigger] last_component_spec(include_paths@[b]@)
                        != last_component_spec(include_paths@[i as int]@),
            decreases i - j,
        {
            if names[j] == names[i] {
                proof {
                    assert(last_component_spec(include_paths@[j as int]@) == Some(
                        names@[i as int]@,
                    ));
                    assert(last_component_spec(include_paths@[i as int]@) == Some(
                        names@[i as int]@,
                    ));
                }
                return Err(BackupError::DuplicateIncludeName(names[i].clone()));
            }
            j = j + 1;
        }
        i = i + 1;
    }
    Ok(())
}

} // verus!
