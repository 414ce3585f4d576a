//! What a run of an outside program gave, as plain data.
use vstd::prelude::*;

use crate::text::texts;

verus! {

/// How a run of a program ended.
pub enum Output {
    /// The program could not be started, for the reason given.
    NotStarted(String),
    /// The program ran to its end.
    Ended { success: bool, stdout: Vec<u8>, stderr: Vec<u8> },
}

/// What is known of a run.
#[verifier::ext_equal]
pub enum OutputModel {
    NotStarted(Seq<char>),
    Ended { success: bool, stdout: Seq<u8>, stderr: Seq<u8> },
}

impl View for Output {
    type V = OutputModel;

    open spec fn view(&self) -> OutputModel {
        match self {
            Output::NotStarted(reason) => OutputModel::NotStarted(reason@),
            Output::Ended { success, stdout, stderr } => OutputModel::Ended {
                success: *success,
                stdout: stdout@,
                stderr: stderr@,
            },
        }
    }
}

/// The runs of a list.
pub open spec fn output_models(list: Seq<Output>) -> Seq<OutputModel> {
    list.map_values(|o: Output| o@)
}

/// The text of bytes, as `String::from_utf8_lossy` gives it.
pub uninterp spec fn lossy(bytes: Seq<u8>) -> Seq<char>;

/// `String::from_utf8_lossy`: the text that the bytes encode in UTF-8, a function
/// of the bytes alone. What stands in place of bytes that encode nothing is left
/// to the name.
#[verifier::external_body]
pub(crate) fn text_of(bytes: &[u8]) -> (r: String)
    ensures
        r@ == lossy(bytes@),
        vstd::utf8::valid_utf8(bytes@) ==> r@ == vstd::utf8::decode_utf8(bytes@),
{
    String::from_utf8_lossy(bytes).into_owned()
}

/// The texts of a list of string slices.
pub open spec fn slices(list: Seq<&str>) -> Seq<Seq<char>> {
    list.map_values(|s: &str| s@)
}

/// An argument list made of the given texts.
pub fn arguments(parts: &[&str]) -> (r: Vec<String>)
    ensures
        texts(r@) == slices(parts@),
{
    let mut out: Vec<String> = Vec::new();
    for i in 0..parts.len()
        invariant
            texts(out@) == slices(parts@).take(i as int),
    {
        let ghost earlier = texts(out@);
        out.push(parts[i].to_owned());
        assert(texts(out@) =~= earlier.push(parts@[i as int]@));
        assert(slices(parts@).take(i + 1) =~= earlier.push(parts@[i as int]@));
    }
    assert(slices(parts@).take(parts@.len() as int) =~= slices(parts@));
    out
}

} // verus!
