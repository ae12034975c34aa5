use vstd::prelude::*;
use vstd::string::StringSliceAdditionalSpecFns;

verus! {

/// One record of the tabular data source: an ordered list of column
/// name/value pairs. A worker is bound to at most one row for the lifetime
/// of its single request.
///
/// Duplicate column names are tolerated and kept in order; wherever a name
/// decides something (placeholder substitution), its first pair is the one
/// consulted.
pub struct DataRow {
    pub pairs: Vec<(String, String)>,
}

impl DataRow {
    /// The row's name/value pairs as character sequences.
    pub open spec fn pairs_view(self) -> Seq<(Seq<char>, Seq<char>)> {
        self.pairs@.map_values(|p: (String, String)| (p.0@, p.1@))
    }
}

/// The kinds of data-source file the loader recognises, by file extension.
#[derive(Clone, Copy, Debug, PartialEq, Eq, Structural)]
pub enum DataFormat {
    Csv,
    Excel,
    Unsupported,
}

/// An ASCII upper-case letter lowered; every other byte unchanged.
pub open spec fn lower_byte(b: u8) -> u8 {
    if 65 <= b <= 90 {
        (b + 32) as u8
    } else {
        b
    }
}

/// A byte sequence with its ASCII letters lowered.
pub open spec fn lowered(s: Seq<u8>) -> Seq<u8> {
    s.map_values(|b: u8| lower_byte(b))
}

/// A path with its trailing `/` separators removed: they change which file
/// is named in no way, so the extension is taken from the file name that
/// stands before them.
pub open spec fn strip_trailing_seps(p: Seq<u8>) -> Seq<u8>
    decreases p.len(),
{
    if p.len() > 0 && p.last() == 47 {
        strip_trailing_seps(p.drop_last())
    } else {
        p
    }
}

/// The position just after the last `/` of a path, or 0 when it has none:
/// where the file name starts.
pub open spec fn after_last_sep(p: Seq<u8>) -> int
    decreases p.len(),
{
    if p.len() == 0 {
        0
    } else if p.last() == 47 {
        p.len() as int
    } else {
        after_last_sep(p.drop_last())
    }
}

/// The position of the last `.` of a file name, or -1 when it has none.
pub open spec fn last_dot(f: Seq<u8>) -> int
    decreases f.len(),
{
    if f.len() == 0 {
        -1
    } else if f.last() == 46 {
        f.len() - 1
    } else {
        last_dot(f.drop_last())
    }
}

/// The format named by an extension, compared without regard to ASCII case:
/// `csv` is delimited text, `xls` and `xlsx` are spreadsheets, anything
/// else is unsupported.
pub open spec fn spec_ext_format(ext: Seq<u8>) -> DataFormat {
    if lowered(ext) == seq![99u8, 115u8, 118u8] {
        DataFormat::Csv
    } else if lowered(ext) == seq![120u8, 108u8, 115u8] || lowered(ext) == seq![
        120u8,
        108u8,
        115u8,
        120u8,
    ] {
        DataFormat::Excel
    } else {
        DataFormat::Unsupported
    }
}

/// The format of a path, from the extension of its file name: trailing
/// separators are ignored, the file name is what follows the last `/`, and
/// the extension is the part after the name's last `.`, provided that dot
/// is not the name's first character. A name with no dot, or only a leading
/// one, has no extension.
pub open spec fn spec_data_format(p: Seq<u8>) -> DataFormat {
    let q = strip_trailing_seps(p);
    let f = q.skip(after_last_sep(q));
    let d = last_dot(f);
    if d > 0 {
        spec_ext_format(f.skip(d + 1))
    } else {
        DataFormat::Unsupported
    }
}

/// Lower one ASCII letter.
fn lower_ascii(b: u8) -> (r: u8)
    ensures
        r == lower_byte(b),
{
    if b >= 65 && b <= 90 {
        b + 32
    } else {
        b
    }
}

/// Decide which loader a data-source path calls for, from its extension.
#[verifier::rlimit(60)]
pub fn data_format_of(path: &str) -> (r: DataFormat)
    ensures
        r == spec_data_format(path.spec_bytes()),
{
    let bytes: &[u8] = path.as_bytes();
    let len: usize = bytes.len();
    let ghost p = path.spec_bytes();
    let mut e: usize = len;
    proof {
        assert(p.take(len as int) =~= p);
    }
    while e > 0 && bytes[e - 1] == 47
        invariant
            e <= len,
            len == p.len(),
            bytes@ == p,
            strip_trailing_seps(p) == strip_trailing_seps(p.take(e as int)),
        decreases e,
    {
        proof {
            assert(p.take(e as int).last() == p[e - 1]);
            assert(p.take(e as int).drop_last() =~= p.take(e - 1));
        }
        e = e - 1;
    }
    let ghost q = p.take(e as int);
    proof {
        if e == 0 {
            assert(p.take(0) =~= Seq::<u8>::empty());
        } else {
            assert(q.last() == p[e - 1]);
        }
        assert(strip_trailing_seps(p) == q);
        assert(q.len() == e);
    }
    let mut s: usize = e;
    proof {
        assert(q.take(e as int) =~= q);
    }
    while s > 0 && bytes[s - 1] != 47
        invariant
            s <= e <= len,
            len == p.len(),
            bytes@ == p,
            q == p.take(e as int),
            after_last_sep(q) == after_last_sep(q.take(s as int)),
        decreases s,
    {
        proof {
            assert(q.take(s as int).last() == q[s - 1]);
            assert(q[s - 1] == p[s - 1]);
            assert(q.take(s as int).drop_last() =~= q.take(s - 1));
        }
        s = s - 1;
    }
    proof {
        if s == 0 {
            assert(q.take(0) =~= Seq::<u8>::empty());
        } else {
            assert(q.take(s as int).last() == q[s - 1]);
            assert(q[s - 1] == p[s - 1]);
        }
        assert(after_last_sep(q) == s);
    }
    let ghost f = q.skip(s as int);
    let mut j: usize = e;
    proof {
        assert(f.take((e - s) as int) =~= f);
    }
    while j > s && bytes[j - 1] != 46
        invariant
            s <= j <= e <= len,
            len == p.len(),
            bytes@ == p,
            q == p.take(e as int),
            f == q.skip(s as int),
            last_dot(f) == last_dot(f.take((j - s) as int)),
        decreases j,
    {
        proof {
            assert(f.take((j - s) as int).last() == f[j - s - 1]);
            assert(f[j - s - 1] == q[j - 1]);
            assert(q[j - 1] == p[j - 1]);
            assert(f.take((j - s) as int).drop_last() =~= f.take((j - s - 1) as int));
        }
        j = j - 1;
    }
    if j == s {
        proof {
            assert(f.take(0) =~= Seq::<u8>::empty());
            assert(last_dot(f) == -1);
        }
        return DataFormat::Unsupported;
    }
    proof {
        assert(f.take((j - s) as int).last() == f[j - s - 1]);
        assert(f[j - s - 1] == q[j - 1]);
        assert(q[j - 1] == p[j - 1]);
        assert(last_dot(f) == j - s - 1);
    }
    if j - 1 == s {
        return DataFormat::Unsupported;
    }
    let ghost ext = f.skip((last_dot(f) + 1) as int);
    proof {
        assert(ext =~= q.skip(j as int));
        assert(lowered(ext).len() == ext.len());
        assert(forall|k: int|
            0 <= k < ext.len() ==> (#[trigger] lowered(ext)[k]) == lower_byte(p[j + k]));
    }
    let elen: usize = e - j;
    if elen == 3 {
        let b0 = lower_ascii(bytes[j]);
        let b1 = lower_ascii(bytes[j + 1]);
        let b2 = lower_ascii(bytes[j + 2]);
        if b0 == 99 && b1 == 115 && b2 == 118 {
            proof {
                assert(lowered(ext) =~= seq![99u8, 115u8, 118u8]);
            }
            DataFormat::Csv
        } else if b0 == 120 && b1 == 108 && b2 == 115 {
            proof {
                assert(lowered(ext) =~= seq![120u8, 108u8, 115u8]);
            }
            DataFormat::Excel
        } else {
            DataFormat::Unsupported
        }
    } else if elen == 4 {
        let b0 = lower_ascii(bytes[j]);
        let b1 = lower_ascii(bytes[j + 1]);
        let b2 = lower_ascii(bytes[j + 2]);
        let b3 = lower_ascii(bytes[j + 3]);
        if b0 == 120 && b1 == 108 && b2 == 115 && b3 == 120 {
            proof {
                assert(lowered(ext) =~= seq![120u8, 108u8, 115u8, 120u8]);
            }
            DataFormat::Excel
        } else {
            DataFormat::Unsupported
        }
    } else {
        DataFormat::Unsupported
    }
}

/// The row obtained from one record under the given column headers: pairs
/// up to the shorter of the two, so extra cells are ignored and missing
/// cells stay unset.
pub open spec fn zip_row(headers: Seq<String>, cells: Seq<String>) -> Seq<(Seq<char>, Seq<char>)> {
    Seq::new(
        if headers.len() <= cells.len() {
            headers.len()
        } else {
            cells.len()
        },
        |i: int| (headers[i]@, cells[i]@),
    )
}

/// Build one data row from one record under the given column headers.
pub fn row_from_record(headers: &Vec<String>, rec: &Vec<String>) -> (r: DataRow)
    ensures
        r.pairs_view() == zip_row(headers@, rec@),
{
    let m = if headers.len() <= rec.len() {
        headers.len()
    } else {
        rec.len()
    };
    let mut pairs: Vec<(String, String)> = Vec::new();
    let mut j: usize = 0;
    while j < m
        invariant
            j <= m,
            m == (if headers@.len() <= rec@.len() {
                headers@.len()
            } else {
                rec@.len()
            }),
            pairs@.len() == j,
            forall|k: int|
                0 <= k < j ==> (#[trigger] pairs@[k]).0@ == headers@[k]@ && pairs@[k].1@
                    == rec@[k]@,
        decreases m - j,
    {
        pairs.push((headers[j].clone(), rec[j].clone()));
        j = j + 1;
    }
    let row = DataRow { pairs };
    proof {
        assert(row.pairs_view() =~= zip_row(headers@, rec@));
    }
    row
}

/// Build the data rows from column headers and the data records, pairing
/// each record's cells with the headers in order.
pub fn rows_from_records(headers: &Vec<String>, records: &Vec<Vec<String>>) -> (r: Vec<DataRow>)
    ensures
        r@.len() == records@.len(),
        forall|i: int|
            0 <= i < records@.len() ==> (#[trigger] r@[i]).pairs_view() == zip_row(
                headers@,
                records@[i]@,
            ),
{
    let mut out: Vec<DataRow> = Vec::new();
    let n = records.len();
    let mut i: usize = 0;
    while i < n
        invariant
            i <= n,
            n == records@.len(),
            out@.len() == i,
            forall|k: int|
                0 <= k < i ==> (#[trigger] out@[k]).pairs_view() == zip_row(
                    headers@,
                    records@[k]@,
                ),
        decreases n - i,
    {
        let row = row_from_record(headers, &records[i]);
        out.push(row);
        i = i + 1;
    }
    out
}

/// Build the data rows from a whole grid of cells whose first row holds the
/// column headers; a grid with no rows at all yields no data rows.
pub fn rows_from_grid(grid: &Vec<Vec<String>>) -> (r: Vec<DataRow>)
    ensures
        grid@.len() == 0 ==> r@.len() == 0,
        grid@.len() > 0 ==> r@.len() == grid@.len() - 1,
        forall|i: int|
            0 < i < grid@.len() ==> (#[trigger] r@[i - 1]).pairs_view() == zip_row(
                grid@[0]@,
                grid@[i]@,
            ),
{
    let mut out: Vec<DataRow> = Vec::new();
    if grid.len() == 0 {
        return out;
    }
    let n = grid.len();
    let mut i: usize = 1;
    while i < n
        invariant
            1 <= i <= n,
            n == grid@.len(),
            out@.len() == i - 1,
            forall|k: int|
                0 < k < i ==> (#[trigger] out@[k - 1]).pairs_view() == zip_row(
                    grid@[0]@,
                    grid@[k]@,
                ),
        decreases n - i,
    {
        let row = row_from_record(&grid[0], &grid[i]);
        out.push(row);
        i = i + 1;
    }
    out
}

} // verus!
