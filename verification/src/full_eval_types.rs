//! What an evaluation says of one attribute.

use vstd::prelude::*;

use crate::attr_map::AttrMap;
use crate::text::opt_text;

verus! {

/// One line of the output of nix-eval-jobs.
#[derive(Debug)]
pub struct EvalJobOutput {
    /// The attribute path, such as `python3Packages.requests`.
    pub attr: String,
    /// The derivation of the package.
    pub drv_path: Option<String>,
    /// What went wrong, where the evaluation failed.
    pub error: Option<String>,
    /// The derivations of the intermediate attributes, by name.
    pub extra_value: Option<AttrMap<Option<String>>>,
}

/// What an evaluation says of one attribute, as text.
#[verifier::ext_equal]
pub struct EvalText {
    pub attr: Seq<char>,
    pub drv: Option<Seq<char>>,
    /// Whether the evaluation failed.
    pub failed: bool,
    /// The intermediate attributes and their derivations.
    pub ints: Option<Seq<(Seq<char>, Option<Seq<char>>)>>,
}

/// The names and derivations of a list of intermediate attributes.
pub open spec fn drv_entries(entries: Seq<(Seq<char>, Option<String>)>) -> Seq<
    (Seq<char>, Option<Seq<char>>),
> {
    entries.map_values(|e: (Seq<char>, Option<String>)| (e.0, opt_text(e.1)))
}

impl View for EvalJobOutput {
    type V = EvalText;

    open spec fn view(&self) -> EvalText {
        EvalText {
            attr: self.attr@,
            drv: opt_text(self.drv_path),
            failed: self.error is Some,
            ints: match self.extra_value {
                Some(map) => Some(drv_entries(map@)),
                None => None,
            },
        }
    }
}

/// What a list of outputs says.
pub open spec fn eval_texts(list: Seq<EvalJobOutput>) -> Seq<EvalText> {
    list.map_values(|e: EvalJobOutput| e@)
}

/// What an output says is all that it holds but for the words of an error, of which it
/// says only whether there are any.
pub proof fn law_output_says_all(e: EvalJobOutput)
    ensures
        e@.attr == e.attr@,
        e@.failed <==> e.error is Some,
        e@.drv is Some <==> e.drv_path is Some,
        e.drv_path matches Some(d) ==> e@.drv == Some(d@),
        e@.ints is Some <==> e.extra_value is Some,
        e.extra_value matches Some(map) ==> {
            &&& e@.ints->0.len() == map@.len()
            &&& forall|k: int|
                0 <= k < map@.len() ==> {
                    &&& (#[trigger] e@.ints->0[k]).0 == map@[k].0
                    &&& e@.ints->0[k].1 is Some <==> map@[k].1 is Some
                    &&& map@[k].1 matches Some(d) ==> e@.ints->0[k].1 == Some(d@)
                }
        },
{
}

/// A list of outputs says what each says, one for one.
pub proof fn law_outputs_say_all(list: Seq<EvalJobOutput>)
    ensures
        eval_texts(list).len() == list.len(),
        forall|i: int| 0 <= i < list.len() ==> #[trigger] eval_texts(list)[i] == list[i]@,
{
}

} // verus!
