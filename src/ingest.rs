//! The decisions of a multipart upload: which parts are loaded, and the
//! running count of stored rows.

use crate::records::CsvResponse;
use vstd::prelude::*;

verus! {

/// Whether a part with this declared content type holds CSV to load: only
/// exactly `text/csv` does; other parts are skipped.
pub fn is_csv_part(content_type: Option<&str>) -> (r: bool)
    ensures
        r == (content_type matches Some(t) && t@ == "text/csv"@),
{
    proof {
        reveal_strlit("text/csv");
    }
    match content_type {
        Some(t) => {
            let n = t.unicode_len();
            let expected = "text/csv";
            if n != 8 {
                return false;
            }
            let mut i: usize = 0;
            while i < n
                invariant
                    content_type == Some(t),
                    n == t@.len() == 8,
                    expected@ == "text/csv"@,
                    expected@.len() == 8,
                    i <= n,
                    forall|k: int| 0 <= k < i ==> t@[k] == expected@[k],
                decreases n - i,
            {
                if t.get_char(i) != expected.get_char(i) {
                    assert(t@[i as int] != "text/csv"@[i as int]);
                    assert(t@ != "text/csv"@);
                    return false;
                }
                i = i + 1;
            }
            assert(t@ =~= "text/csv"@);
            true
        },
        None => false,
    }
}

impl CsvResponse {
    /// The count after one more part stored `n` rows; nothing where the
    /// count would pass `u64::MAX`.
    pub fn add(self, n: u64) -> (r: Option<CsvResponse>)
        ensures
            r == (if self.0 + n <= u64::MAX {
                Some(CsvResponse((self.0 + n) as u64))
            } else {
                None::<CsvResponse>
            }),
    {
        if n <= u64::MAX - self.0 {
            Some(CsvResponse(self.0 + n))
        } else {
            None
        }
    }
}

} // verus!
