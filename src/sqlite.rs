//! The decisions of the SQLite-backed store that do not touch the database:
//! what a bulk operation does, and the text of the key search.

use vstd::prelude::*;
use crate::record::{chars_of, push_char};

verus! {

/// One operation of a bulk update: `kind` is `set` to store `value` under
/// `key`; any other kind deletes `key`.
pub struct BulkObject {
    pub kind: String,
    pub key: String,
    pub value: Option<String>,
}

/// What a bulk operation does to the table.
pub enum BulkAction {
    Replace { key: String, value: String },
    Delete { key: String },
}

/// Why a bulk operation cannot be carried out.
#[derive(PartialEq, Eq, Structural, Clone, Copy, Debug)]
pub enum BulkError {
    /// A `set` without a value.
    MissingValue,
}

/// The kind of bulk operation that stores a value.
pub open spec fn set_kind() -> Seq<char> {
    seq!['s', 'e', 't']
}

/// Reads one bulk operation: `set` with a value replaces the row of its key,
/// `set` without one is refused, and every other kind deletes the key.
pub fn bulk_action(ob: BulkObject) -> (r: Result<BulkAction, BulkError>)
    ensures
        ob.kind@ == set_kind() && ob.value is None ==> r == Err::<BulkAction, BulkError>(BulkError::MissingValue),
        ob.kind@ == set_kind() && ob.value is Some ==> (r matches Ok(BulkAction::Replace { key, value })
            && key@ == ob.key@ && value@ == ob.value->0@),
        ob.kind@ != set_kind() ==> (r matches Ok(BulkAction::Delete { key }) && key@ == ob.key@),
{
    let set = "set".to_owned();
    proof {
        reveal_strlit("set");
        assert(set@ =~= set_kind());
    }
    if ob.kind.eq(&set) {
        match ob.value {
            Some(value) => Ok(BulkAction::Replace { key: ob.key, value }),
            None => Err(BulkError::MissingValue),
        }
    } else {
        Ok(BulkAction::Delete { key: ob.key })
    }
}

/// A glob pattern as an SQL `LIKE` pattern: each `*` becomes `%`.
pub open spec fn like_of(p: Seq<char>) -> Seq<char> {
    p.map_values(|c: char| if c == '*' { '%' } else { c })
}

/// The `LIKE` pattern for a glob pattern.
pub fn like_pattern(pattern: &str) -> (r: String)
    ensures
        r@ == like_of(pattern@),
{
    let cs = chars_of(pattern);
    let mut out = String::new();
    let mut i: usize = 0;
    while i < cs.len()
        invariant
            i <= cs.len(),
            cs@ == pattern@,
            out@ == like_of(cs@.take(i as int)),
        decreases cs.len() - i,
    {
        if cs[i] == '*' {
            push_char(&mut out, '%');
        } else {
            push_char(&mut out, cs[i]);
        }
        assert(like_of(cs@.take(i + 1)) =~= like_of(cs@.take(i as int)).push(if cs@[i as int] == '*' { '%' } else { cs@[i as int] }));
        i = i + 1;
    }
    assert(cs@.take(i as int) =~= cs@);
    out
}

/// The query of the key search: keys like the first parameter and, where
/// keys are left out, not like the second.
pub fn find_keys_query(with_exclusion: bool) -> (r: String)
    ensures
        r@ == (if with_exclusion {
            "SELECT key FROM store WHERE key LIKE ? AND key NOT LIKE ?"@
        } else {
            "SELECT key FROM store WHERE key LIKE ?"@
        }),
{
    let mut q = "SELECT key FROM store WHERE key LIKE ?".to_owned();
    if with_exclusion {
        q.append(" AND key NOT LIKE ?");
        proof {
            reveal_strlit("SELECT key FROM store WHERE key LIKE ?");
            reveal_strlit(" AND key NOT LIKE ?");
            reveal_strlit("SELECT key FROM store WHERE key LIKE ? AND key NOT LIKE ?");
            assert(q@ =~= "SELECT key FROM store WHERE key LIKE ? AND key NOT LIKE ?"@);
        }
    }
    q
}

} // verus!
