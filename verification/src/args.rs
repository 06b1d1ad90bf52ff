//! Descriptions of the verifier's command-line arguments, for callers that
//! wrap the library and rebuild the same interface in another language.

use vstd::prelude::*;
use vstd::string::StrSliceExecFns;

verus! {

/// The attributes of one argument taken by the verifier's interface.
#[derive(Clone, Debug, PartialEq)]
pub struct Argument {
    pub long: Option<String>,
    pub short: Option<String>,
    pub help: Option<String>,
    pub possible_values: Option<Vec<String>>,
    pub default_value: Option<String>,
    pub multiple: Option<bool>,
    pub env: Option<String>,
}

/// The two families of argument: options, which take a parameter, and
/// flags, which stand alone.
#[derive(Clone, Debug, PartialEq)]
pub struct OptionsFlags {
    /// Arguments which require a parameter, such as loglevel
    pub options: Vec<Argument>,
    /// Arguments which are a bool, such as publish
    pub flags: Vec<Argument>,
}

/// Builds one argument description from the pieces an argument parser
/// reports about it. Every present piece is carried over as given;
/// `multiple` is always reported, `false` unless set.
pub fn parse_argument(
    long: Option<String>,
    short: Option<String>,
    help: Option<String>,
    possible_values: Option<Vec<String>>,
    default_value: Option<String>,
    multiple: bool,
    env: Option<String>,
) -> (r: Argument)
    ensures
        r.long.deep_view() == long.deep_view(),
        r.short.deep_view() == short.deep_view(),
        r.help.deep_view() == help.deep_view(),
        r.possible_values.deep_view() == possible_values.deep_view(),
        r.default_value.deep_view() == default_value.deep_view(),
        r.multiple == Some(multiple),
        r.env.deep_view() == env.deep_view(),
{
    let mut arg = Argument {
        short: None,
        long: None,
        help: None,
        possible_values: None,
        default_value: None,
        multiple: Some(false),
        env: None,
    };
    arg.long = long;
    arg.short = short;
    arg.help = help;
    arg.possible_values = possible_values;
    arg.default_value = default_value;
    if multiple {
        arg.multiple = Some(true);
    }
    arg.env = env;
    arg
}

/// The present, non-empty values of a list of optional strings, in order.
pub open spec fn kept_values(items: Seq<Option<Seq<char>>>) -> Seq<Seq<char>>
    decreases items.len(),
{
    if items.len() == 0 {
        Seq::<Seq<char>>::empty()
    } else {
        let rest = kept_values(items.drop_last());
        match items.last() {
            Some(s) => if s.len() > 0 {
                rest.push(s)
            } else {
                rest
            },
            None => rest,
        }
    }
}

/// Keeps the items that are present and non-empty, in order: the shape a
/// list of optional strings from a foreign caller is reduced to.
pub fn get_vector(items: Vec<Option<String>>) -> (r: Vec<String>)
    ensures
        r.deep_view() == kept_values(items.deep_view()),
{
    let ghost model = items.deep_view();
    let n = items.len();
    let mut r: Vec<String> = Vec::new();
    let mut i: usize = 0;
    proof {
        assert(model.take(0) =~= Seq::<Option<Seq<char>>>::empty());
        assert(r.deep_view() =~= kept_values(model.take(0)));
    }
    while i < n
        invariant
            i <= n,
            n == items.len(),
            model == items.deep_view(),
            r.deep_view() == kept_values(model.take(i as int)),
        decreases n - i,
    {
        proof {
            assert(model[i as int] == items@[i as int].deep_view());
            assert(model.take(i as int + 1).drop_last() =~= model.take(i as int));
            assert(model.take(i as int + 1).last() == model[i as int]);
        }
        match &items[i] {
            Some(s) => {
                if s.as_str().unicode_len() > 0 {
                    r.push(s.clone());
                    proof {
                        assert(r.deep_view() =~= kept_values(model.take(i as int + 1)));
                    }
                } else {
                    proof {
                        assert(r.deep_view() =~= kept_values(model.take(i as int + 1)));
                    }
                }
            },
            None => {
                proof {
                    assert(r.deep_view() =~= kept_values(model.take(i as int + 1)));
                }
            },
        }
        i += 1;
    }
    proof {
        assert(model.take(n as int) =~= model);
    }
    r
}

} // verus!
