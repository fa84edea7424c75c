//! The resolver: from a default source, named overlay sources, and the
//! process environment to one resolved source, or an error.
//!
//! The default source is mandatory: a missing or unreadable default is a
//! load error, never a silently empty configuration.  Overlays are applied
//! only when the selector names them, but an overlay that is named and
//! cannot be loaded is a load error too.  The environment source is added
//! last and therefore always wins.

use vstd::prelude::*;

use crate::envkeys::{env_entries, env_source, KeyCase};
use crate::merge::{dup_source, layer_maps, resolve_layers};
use crate::paths::{resolved, source_map, Entry};
use crate::text::overlay_list;
use crate::text::split_names;
use crate::Error;

verus! {

/// How the overlay selector is read: as one overlay name taken whole, or
/// as a comma separated list of overlay names.
#[derive(Clone, Copy, Debug, PartialEq, Eq, Structural)]
pub enum OverlayMode {
    /// The selector names a single overlay.
    Single,
    /// The selector holds a comma separated list of overlays.
    List,
}

/// The overlay names a selector picks: none at all when the selector is
/// unset; the selector itself in single mode; its comma separated, trimmed
/// pieces in list mode.
pub fn overlay_names(selector: Option<&String>, mode: OverlayMode) -> (r: Vec<String>)
    ensures
        match selector {
            Option::None => r.deep_view() == Seq::<Seq<char>>::empty(),
            Option::Some(s) => r.deep_view() == match mode {
                OverlayMode::Single => seq![s@],
                OverlayMode::List => overlay_list(s@),
            },
        },
{
    match selector {
        Option::None => {
            let r: Vec<String> = Vec::new();
            proof {
                assert(r.deep_view() =~= Seq::<Seq<char>>::empty());
            }
            r
        },
        Option::Some(s) => match mode {
            OverlayMode::Single => {
                let mut r: Vec<String> = Vec::new();
                r.push(s.clone());
                proof {
                    assert(r.deep_view() =~= seq![s@]);
                }
                r
            },
            OverlayMode::List => split_names(s.as_str()),
        },
    }
}

/// Resolve a configuration from its loaded sources.
///
/// `default` holds the entries of the mandatory default source, or `None`
/// when that source could not be loaded; each element of `overlays` holds
/// the entries of one named overlay, in selector order, or `None` when that
/// overlay could not be loaded; `env_vars` are the variables of the process
/// environment, and `prefix` marks which of them are overrides.  A missing
/// default or a missing named overlay is a load error; otherwise the result
/// denotes exactly the merge of default, overlays, and environment source,
/// in that order of precedence.
pub fn resolve_config(
    default: Option<&Vec<Entry>>,
    overlays: &Vec<Option<Vec<Entry>>>,
    env_vars: &Vec<(String, String)>,
    prefix: &str,
    case: KeyCase,
) -> (r: Result<Vec<Entry>, Error>)
    ensures
        default is None ==> r is Err && r->Err_0 is Load,
        default is Some && (exists|i: int| 0 <= i < overlays@.len() && overlays@[i] is None)
            ==> r is Err && r->Err_0 is Load,
        default is Some && (forall|i: int| 0 <= i < overlays@.len() ==> overlays@[i] is Some)
            ==> r is Ok && source_map(r->Ok_0.deep_view()) == resolved(
            layer_maps(
                default->0.deep_view(),
                overlays@.map_values(|o: Option<Vec<Entry>>| o->0.deep_view()),
                env_source(env_vars.deep_view(), prefix@, case),
            ),
        ),
{
    match default {
        Option::None => Result::Err(
            Error::Load(String::from_str("the mandatory default source is missing")),
        ),
        Option::Some(d) => {
            let ghost target = overlays@.map_values(|o: Option<Vec<Entry>>| o->0.deep_view());
            let mut loaded: Vec<Vec<Entry>> = Vec::new();
            let mut idx: usize = 0;
            while idx < overlays.len()
                invariant
                    idx <= overlays.len(),
                    target == overlays@.map_values(|o: Option<Vec<Entry>>| o->0.deep_view()),
                    forall|m: int| 0 <= m < idx ==> overlays@[m] is Some,
                    loaded.deep_view() == target.take(idx as int),
                decreases overlays.len() - idx,
            {
                match &overlays[idx] {
                    Option::Some(src) => {
                        let ghost l0 = loaded.deep_view();
                        loaded.push(dup_source(src));
                        proof {
                            assert(loaded.deep_view() =~= l0.push(target[idx as int]));
                            assert(loaded.deep_view() =~= target.take(idx as int + 1));
                        }
                    },
                    Option::None => {
                        proof {
                            assert(overlays@[idx as int] is None);
                        }
                        return Result::Err(
                            Error::Load(String::from_str("a named overlay source is missing")),
                        );
                    },
                }
                idx = idx + 1;
            }
            proof {
                assert(loaded.deep_view() =~= target);
            }
            let env = env_entries(prefix, env_vars, case);
            let merged_entries = resolve_layers(d, &loaded, &env);
            Result::Ok(merged_entries)
        },
    }
}

/// A structured type that can be populated from a resolved source: the
/// pluggable deserialization step of the resolver.
pub trait FromResolved: Sized {
    /// Populate a value of this type from the resolved entries, or report
    /// why they cannot populate it.
    fn from_entries(entries: &Vec<Entry>) -> Result<Self, Error>;
}

/// Load a configuration: resolve the sources in precedence order, then
/// populate the target type from the resolved entries.  A missing default
/// source or a missing named overlay is a load error.
pub fn load_resolved<T: FromResolved>(
    default: Option<&Vec<Entry>>,
    overlays: &Vec<Option<Vec<Entry>>>,
    env_vars: &Vec<(String, String)>,
    prefix: &str,
    case: KeyCase,
) -> (r: Result<T, Error>)
    ensures
        default is None ==> r is Err && r->Err_0 is Load,
        default is Some && (exists|i: int| 0 <= i < overlays@.len() && overlays@[i] is None)
            ==> r is Err && r->Err_0 is Load,
{
    match resolve_config(default, overlays, env_vars, prefix, case) {
        Result::Ok(entries) => T::from_entries(&entries),
        Result::Err(e) => Result::Err(e),
    }
}

} // verus!
