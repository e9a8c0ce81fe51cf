//! A record of delimited text as one line of columns.

use crate::cut::record_fields;
use crate::text::{pad_right, padded_right};
use csv::StringRecord;
use vstd::prelude::*;
use vstd::string::*;

verus! {

/// The fields one after the other, each filled up with spaces to twenty
/// characters; a longer field is kept whole.
pub open spec fn columns(fields: Seq<Seq<char>>) -> Seq<char>
    decreases fields.len(),
{
    if fields.len() == 0 {
        Seq::empty()
    } else {
        columns(fields.drop_last()) + padded_right(fields.last(), 20)
    }
}

/// The line that shows a record in columns of twenty characters.
pub fn fmt(rec: &StringRecord) -> (line: String)
    ensures
        line@ == columns(record_fields(*rec)),
{
    let ghost fields = record_fields(*rec);
    let n: usize = rec.len();
    let mut line = String::new();
    let mut i: usize = 0;
    proof {
        assert(fields.take(0) =~= Seq::<Seq<char>>::empty());
    }
    while i < n
        invariant
            i <= n,
            n == fields.len(),
            fields == record_fields(*rec),
            line@ == columns(fields.take(i as int)),
        decreases n - i,
    {
        proof {
            assert(fields.take(i + 1).drop_last() =~= fields.take(i as int));
            assert(fields.take(i + 1).last() == fields[i as int]);
        }
        match rec.get(i) {
            Some(field) => {
                let cell = pad_right(field, 20);
                line.append(cell.as_str());
            },
            None => {},
        }
        i = i + 1;
    }
    proof {
        assert(fields.take(i as int) =~= fields);
    }
    line
}

} // verus!
