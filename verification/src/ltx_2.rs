//! The catalog rows of LTX-2.5, an asymmetric dual-stream video-and-audio
//! diffusion transformer.

use vstd::prelude::*;

verus! {

/// The label the media front-ends dispatch on.
pub const ARCH: &'static str = "ltx_2";

/// Element classes a row is stored and computed in.
#[derive(Clone, Copy, Debug, PartialEq, Eq, Structural)]
pub enum Dtype {
    Bf16,
}

/// The constructors of the family.
#[derive(Clone, Copy, Debug, PartialEq, Eq, Structural)]
pub enum Model {
    /// The flagship.
    Ltx25,
    /// Two blocks, two heads a side at the real head widths.
    Mini,
}

/// How a row is traced.
#[derive(Clone, Copy, Debug, PartialEq, Eq, Structural)]
pub enum Trace {
    /// As a hybrid of attention and folded state.
    Hybrid,
}

/// The chat templates of the family.
#[derive(Clone, Copy, Debug, PartialEq, Eq, Structural)]
pub enum Template {
    /// The family's instruct template.
    Instruct,
}

/// The tokenizer contracts of the family.
#[derive(Clone, Copy, Debug, PartialEq, Eq, Structural)]
pub enum Contract {
    /// The family's own.
    Ltx2,
}

/// One catalog row: its name, its tensor parallelism, the dtypes its weights
/// may have, the dtype it computes in, how it is traced, its chat template, its
/// tokenizer contract, the constructor it traces with and the constructor that
/// its generative facts are read from.
pub struct Sku {
    pub text: &'static str,
    pub world: u32,
    pub weights: Vec<Dtype>,
    pub compute: Dtype,
    pub trace: Trace,
    pub template: Template,
    pub tokenizer: Contract,
    pub model: Model,
    pub generative: Option<Model>,
}

/// A row of this family, by name and constructor.
pub open spec fn row_is(row: Sku, text: Seq<char>, model: Model) -> bool {
    &&& row.text@ == text
    &&& row.world == 1
    &&& row.weights@ == seq![Dtype::Bf16]
    &&& row.compute == Dtype::Bf16
    &&& row.trace == Trace::Hybrid
    &&& row.template == Template::Instruct
    &&& row.tokenizer == Contract::Ltx2
    &&& row.model == model
    &&& row.generative == Some(model)
}

fn row(text: &'static str, model: Model) -> (r: Sku)
    ensures
        row_is(r, text@, model),
{
    let mut weights: Vec<Dtype> = Vec::new();
    weights.push(Dtype::Bf16);
    proof {
        assert(weights@ =~= seq![Dtype::Bf16]);
    }
    Sku {
        text,
        world: 1,
        weights,
        compute: Dtype::Bf16,
        trace: Trace::Hybrid,
        template: Template::Instruct,
        tokenizer: Contract::Ltx2,
        model,
        generative: Some(model),
    }
}

/// The flagship first, the miniature last: identification is catalog order,
/// and a miniature reads a checkpoint no operator ships. Each row's generative
/// facts come from the constructor that the row traces with.
pub fn skus() -> (rows: Vec<Sku>)
    ensures
        rows@.len() == 2,
        row_is(rows@[0], "ltx25"@, Model::Ltx25),
        row_is(rows@[1], "ltx25-mini"@, Model::Mini),
        forall|i: int| 0 <= i < rows@.len() ==> rows@[i].generative == Some(#[trigger] rows@[i].model),
{
    let mut rows: Vec<Sku> = Vec::new();
    rows.push(row("ltx25", Model::Ltx25));
    rows.push(row("ltx25-mini", Model::Mini));
    rows
}

/// A row of the family runs on one rank, is stored and computed in one dtype, and
/// takes its generative facts from the constructor it traces with.
pub proof fn law_a_row_runs_alone(r: Sku, text: Seq<char>, model: Model)
    requires
        row_is(r, text, model),
    ensures
        r.text@ == text,
        r.world == 1,
        r.weights@.len() == 1 && r.weights@[0] == r.compute,
        r.model == model && r.generative == Some(r.model),
{
}

} // verus!
