//! Classification of the files found under a root directory into header
//! units and compilable source units, by file extension.

use vstd::prelude::*;

use crate::utils::extension_matches;
use crate::utils::extension_of;

verus! {

/// A path whose extension is `h`: a header unit.
pub open spec fn is_header_path(p: Seq<char>) -> bool {
    extension_of(p) == Some(seq!['h'])
}

/// A path whose extension is `c`: a compilable source unit.
pub open spec fn is_source_path(p: Seq<char>) -> bool {
    extension_of(p) == Some(seq!['c'])
}

/// The header and c files found under a root directory, in traversal order.
pub struct DirInfo {
    pub header_files: Vec<String>,
    pub c_files: Vec<String>,
}

impl DirInfo {
    /// The recorded header paths, as character sequences.
    pub open spec fn headers(&self) -> Seq<Seq<char>> {
        self.header_files.deep_view()
    }

    /// The recorded source paths, as character sequences.
    pub open spec fn sources(&self) -> Seq<Seq<char>> {
        self.c_files.deep_view()
    }
}

/// Classify every given file path by extension: paths ending in `.h` become
/// header files and paths ending in `.c` become c files, both in the order
/// given; every other path is ignored.
pub fn get_dir_info(files: &Vec<String>) -> (d: DirInfo)
    ensures
        d.headers() == files.deep_view().filter(|p: Seq<char>| is_header_path(p)),
        d.sources() == files.deep_view().filter(|p: Seq<char>| is_source_path(p)),
{
    let mut header_files: Vec<String> = Vec::new();
    let mut c_files: Vec<String> = Vec::new();
    let n: usize = files.len();
    let mut i: usize = 0;
    while i < n
        invariant
            i <= n,
            n == files.len(),
            header_files.deep_view() == files.deep_view().subrange(0, i as int).filter(
                |p: Seq<char>| is_header_path(p),
            ),
            c_files.deep_view() == files.deep_view().subrange(0, i as int).filter(
                |p: Seq<char>| is_source_path(p),
            ),
        decreases n - i,
    {
        let ghost prefix = files.deep_view().subrange(0, i as int);
        let ghost extended = files.deep_view().subrange(0, i + 1);
        let f = &files[i];
        if extension_matches(f, 'h') {
            header_files.push(f.clone());
        } else if extension_matches(f, 'c') {
            c_files.push(f.clone());
        }
        proof {
            reveal(Seq::filter);
            assert(extended.drop_last() =~= prefix);
            assert(extended.last() == f@);
            assert(seq!['h'] != seq!['c']) by {
                assert(seq!['h'][0] != seq!['c'][0]);
            }
            assert(header_files.deep_view() =~= extended.filter(
                |p: Seq<char>| is_header_path(p),
            ));
            assert(c_files.deep_view() =~= extended.filter(|p: Seq<char>| is_source_path(p)));
        }
        i = i + 1;
    }
    proof {
        assert(files.deep_view().subrange(0, n as int) =~= files.deep_view());
    }
    DirInfo { header_files, c_files }
}

} // verus!
