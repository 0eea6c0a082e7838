//! The summary of a finished traversal: how many objects, and their size.
use vstd::prelude::*;
use crate::decimal::{decimal, push_decimal};
use crate::size_format::{bytes_to_human_readable_string, human_readable, FormatError};
use crate::walker::{BucketObjects, EntryModel};

verus! {

/// The object count and total size of a listing.
#[derive(Debug, Clone, Copy, PartialEq, Eq, Structural)]
pub struct Summary {
    pub object_count: usize,
    pub total_size: i64,
}

/// Why a listing could not be summarised.
#[derive(Debug, Clone, Copy, PartialEq, Eq, Structural)]
pub enum ReportError {
    /// Some object came without a size.
    SizeUnknown,
    /// The sizes add up to more than an `i64` holds.
    SizeOverflow,
}

/// Every object has a size.
pub open spec fn all_sized(objs: Seq<EntryModel>) -> bool {
    forall|i: int| 0 <= i < objs.len() ==> (#[trigger] objs[i]).size is Some
}

/// The sum of the sizes of the objects; a missing size counts as nothing.
pub open spec fn size_sum(objs: Seq<EntryModel>) -> int
    decreases objs.len(),
{
    if objs.len() == 0 {
        0
    } else {
        size_sum(objs.drop_last()) + match objs.last().size {
            Some(s) => s as int,
            None => 0,
        }
    }
}

/// The summary of a listing's objects: an error if one has no size or the
/// total does not fit in an `i64`, else their number and total size.
pub open spec fn summary_of(objs: Seq<EntryModel>) -> Result<Summary, ReportError> {
    if !all_sized(objs) {
        Err(ReportError::SizeUnknown)
    } else if size_sum(objs) < i64::MIN || size_sum(objs) > i64::MAX {
        Err(ReportError::SizeOverflow)
    } else {
        Ok(Summary { object_count: objs.len() as usize, total_size: size_sum(objs) as i64 })
    }
}

/// Summarising depends on the objects alone: computed twice on the same
/// objects it gives the same count and total.
pub proof fn lemma_summary_repeatable(a: Seq<EntryModel>, b: Seq<EntryModel>)
    requires
        a == b,
    ensures
        summary_of(a) == summary_of(b),
{
}

impl BucketObjects {
    /// Counts the objects found and adds up their sizes.
    pub fn summary(self) -> (r: Result<Summary, ReportError>)
        ensures
            r == summary_of(self@.objects),
    {
        let ghost objs = self@.objects;
        let objects = self.into_objects();
        let n = objects.len();
        let mut acc: i128 = 0;
        let mut i: usize = 0;
        while i < n
            invariant
                n == objects@.len(),
                objs == crate::walker::entries_model(objects@),
                objs == self@.objects,
                i <= n,
                acc == size_sum(objs.take(i as int)),
                -(i as int) * 9223372036854775808 <= acc <= (i as int) * 9223372036854775807,
                forall|j: int| 0 <= j < i ==> (#[trigger] objs[j]).size is Some,
            decreases n - i,
        {
            assert(objs.take(i + 1).drop_last() =~= objs.take(i as int));
            assert(objs[i as int] == objects@[i as int]@);
            match objects[i].size {
                Some(s) => {
                    acc = acc + s as i128;
                },
                None => {
                    assert(objs[i as int].size is None);
                    assert(!all_sized(objs));
                    return Err(ReportError::SizeUnknown);
                },
            }
            i = i + 1;
        }
        assert(objs.take(n as int) =~= objs);
        if acc < i64::MIN as i128 || acc > i64::MAX as i128 {
            Err(ReportError::SizeOverflow)
        } else {
            Ok(Summary { object_count: n, total_size: acc as i64 })
        }
    }
}

/// The line that gives the number of objects.
pub open spec fn objects_line(count: nat) -> Seq<char> {
    "Total Objects: "@ + decimal(count)
}

/// The line that gives the total size, readable and in bytes.
pub open spec fn size_line(total: nat) -> Seq<char> {
    "Total Size: "@ + human_readable(total) + " ("@ + decimal(total) + " bytes)"@
}

impl Summary {
    /// `Total Objects: <count>`.
    pub fn total_objects_line(&self) -> (r: String)
        ensures
            r@ == objects_line(self.object_count as nat),
    {
        let mut s = String::from_str("Total Objects: ");
        push_decimal(&mut s, self.object_count as u64);
        s
    }

    /// `Total Size: <readable> (<bytes> bytes)`; a negative total is refused.
    pub fn total_size_line(&self) -> (r: Result<String, FormatError>)
        ensures
            self.total_size < 0 ==> r == Err::<String, FormatError>(FormatError::NegativeByteCount),
            self.total_size >= 0 ==> r is Ok && r->Ok_0@ == size_line(self.total_size as nat),
    {
        let readable = match bytes_to_human_readable_string(self.total_size) {
            Ok(t) => t,
            Err(e) => {
                return Err(e);
            },
        };
        let mut s = String::from_str("Total Size: ");
        s.append(readable.as_str());
        s.append(" (");
        push_decimal(&mut s, self.total_size as u64);
        s.append(" bytes)");
        Ok(s)
    }
}

} // verus!
