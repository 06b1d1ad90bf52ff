//! The request body for publishing a provider contract, and the rule that
//! decides whether a set of loaded source files is fit to publish.

use vstd::prelude::*;

verus! {

/// The verification-results half of a provider-contract upload.
#[derive(Clone, Debug, PartialEq)]
pub struct VerificationResults {
    pub success: String,
    pub content: String,
    pub content_type: String,
    pub verifier: String,
}

/// The body of a provider-contract upload request.
#[derive(Clone, Debug, PartialEq)]
pub struct ProviderContractUploadRequestBody {
    pub content: String,
    pub contract_type: String,
    pub content_type: String,
    pub verification_results: VerificationResults,
}

impl Default for VerificationResults {
    /// All fields empty.
    fn default() -> (r: VerificationResults)
        ensures
            r.success@.len() == 0,
            r.content@.len() == 0,
            r.content_type@.len() == 0,
            r.verifier@.len() == 0,
    {
        VerificationResults {
            success: String::new(),
            content: String::new(),
            content_type: String::new(),
            verifier: String::new(),
        }
    }
}

impl Default for ProviderContractUploadRequestBody {
    /// All fields empty.
    fn default() -> (r: ProviderContractUploadRequestBody)
        ensures
            r.content@.len() == 0,
            r.contract_type@.len() == 0,
            r.content_type@.len() == 0,
            r.verification_results.success@.len() == 0,
            r.verification_results.content@.len() == 0,
            r.verification_results.content_type@.len() == 0,
            r.verification_results.verifier@.len() == 0,
    {
        ProviderContractUploadRequestBody {
            content: String::new(),
            contract_type: String::new(),
            content_type: String::new(),
            verification_results: VerificationResults::default(),
        }
    }
}

/// The outcome of reading one source file: its text, or the error met.
#[derive(Clone, Debug)]
pub enum SourceLoad {
    Loaded(String),
    Failed(String),
}

/// Mathematical model of a `SourceLoad`.
pub enum SourceModel {
    Loaded(Seq<char>),
    Failed(Seq<char>),
}

impl View for SourceLoad {
    type V = SourceModel;

    open spec fn view(&self) -> SourceModel {
        match self {
            SourceLoad::Loaded(v) => SourceModel::Loaded(v@),
            SourceLoad::Failed(e) => SourceModel::Failed(e@),
        }
    }
}

impl DeepView for SourceLoad {
    type V = SourceModel;

    open spec fn deep_view(&self) -> SourceModel {
        self@
    }
}

/// Whether every named source loaded.
pub open spec fn all_loaded(sources: Seq<(Seq<char>, SourceModel)>) -> bool {
    forall|i: int| 0 <= i < sources.len() ==> (#[trigger] sources[i]).1 is Loaded
}

/// The loaded contents, paired with their source names, in order.
pub open spec fn loaded_pairs(sources: Seq<(Seq<char>, SourceModel)>) -> Seq<
    (Seq<char>, Seq<char>),
>
    decreases sources.len(),
{
    if sources.len() == 0 {
        Seq::<(Seq<char>, Seq<char>)>::empty()
    } else {
        let rest = loaded_pairs(sources.drop_last());
        match sources.last().1 {
            SourceModel::Loaded(v) => rest.push((sources.last().0, v)),
            SourceModel::Failed(_) => rest,
        }
    }
}

/// The names of the sources that failed to load, with their errors, in
/// order.
pub open spec fn failed_sources(sources: Seq<(Seq<char>, SourceModel)>) -> Seq<
    (Seq<char>, Seq<char>),
>
    decreases sources.len(),
{
    if sources.len() == 0 {
        Seq::<(Seq<char>, Seq<char>)>::empty()
    } else {
        let rest = failed_sources(sources.drop_last());
        match sources.last().1 {
            SourceModel::Loaded(_) => rest,
            SourceModel::Failed(e) => rest.push((sources.last().0, e)),
        }
    }
}

/// Judges a set of loaded provider-contract sources: all of them, named and
/// in order, when every one loaded; otherwise the failing names with their
/// errors, and nothing is published.
pub fn load_files(sources: Vec<(String, SourceLoad)>) -> (r: Result<
    Vec<(String, String)>,
    Vec<(String, String)>,
>)
    ensures
        r is Ok <==> all_loaded(sources.deep_view()),
        r matches Ok(v) ==> v.deep_view() == loaded_pairs(sources.deep_view()),
        r matches Err(f) ==> f.deep_view() == failed_sources(sources.deep_view()),
{
    let ghost model = sources.deep_view();
    let n = sources.len();
    let mut ok: Vec<(String, String)> = Vec::new();
    let mut failed: Vec<(String, String)> = Vec::new();
    let mut i: usize = 0;
    proof {
        assert(model.take(0) =~= Seq::<(Seq<char>, SourceModel)>::empty());
        assert(ok.deep_view() =~= loaded_pairs(model.take(0)));
        assert(failed.deep_view() =~= failed_sources(model.take(0)));
    }
    while i < n
        invariant
            i <= n,
            n == sources.len(),
            model == sources.deep_view(),
            ok.deep_view() == loaded_pairs(model.take(i as int)),
            failed.deep_view() == failed_sources(model.take(i as int)),
            failed@.len() == 0 <==> all_loaded(model.take(i as int)),
        decreases n - i,
    {
        proof {
            assert(model[i as int] == sources@[i as int].deep_view());
            assert(model.take(i as int + 1).drop_last() =~= model.take(i as int));
            assert(model.take(i as int + 1).last() == model[i as int]);
        }
        let name = sources[i].0.clone();
        match &sources[i].1 {
            SourceLoad::Loaded(v) => {
                ok.push((name, v.clone()));
                proof {
                    assert(ok.deep_view() =~= loaded_pairs(model.take(i as int + 1)));
                    assert forall|k: int|
                        0 <= k < i + 1 implies all_loaded(model.take(i as int)) ==> (
                    #[trigger] model.take(i as int + 1)[k]).1 is Loaded by {
                        if k < i {
                            assert(model.take(i as int)[k] == model[k]);
                        }
                    };
                }
            },
            SourceLoad::Failed(e) => {
                failed.push((name, e.clone()));
                proof {
                    assert(failed.deep_view() =~= failed_sources(model.take(i as int + 1)));
                    assert((model.take(i as int + 1)[i as int]).1 is Failed);
                }
            },
        }
        i += 1;
    }
    proof {
        assert(model.take(n as int) =~= model);
    }
    if failed.len() == 0 {
        Ok(ok)
    } else {
        Err(failed)
    }
}

} // verus!
