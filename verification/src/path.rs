use vstd::prelude::*;

verus! {

/// The UTF-8 bytes of the extension of the path written as `path`, as
/// `std::path::Path::extension` finds it; `None` when the path has none.
pub uninterp spec fn path_extension(path: Seq<char>) -> Option<Seq<u8>>;

/// Calls `std::path::Path::extension` on the path written as `path` and gives
/// the extension's bytes. The contract claims only that the result is that
/// extension, a function of the path alone; which part of a path std takes as
/// its extension is left to std.
#[verifier::external_body]
fn extension_bytes(path: &str) -> (r: Option<Vec<u8>>)
    ensures
        r matches Some(e) ==> path_extension(path@) == Some(e@),
        r is None ==> path_extension(path@) is None,
{
    std::path::Path::new(path).extension().and_then(|e| e.to_str()).map(|e| e.as_bytes().to_vec())
}

/// The bytes of `png`.
pub open spec fn spec_png_extension() -> Seq<u8> {
    seq![112u8, 110u8, 103u8]
}

/// The file at `path` carries the `.png` extension (exactly `png`, lower case).
pub fn has_png_extension(path: &str) -> (r: bool)
    ensures
        r == (path_extension(path@) == Some(spec_png_extension())),
{
    match extension_bytes(path) {
        None => false,
        Some(e) => {
            if e.len() != 3 {
                return false;
            }
            let r = e[0] == 112u8 && e[1] == 110u8 && e[2] == 103u8;
            proof {
                if r {
                    assert(e@ =~= spec_png_extension());
                }
            }
            r
        },
    }
}

} // verus!
