//! Role-specific option dictionaries and their builder.

use vstd::prelude::*;
use crate::types::{Arg, WampDict, WampString};
use crate::value::{clone_dict, dict_find, dict_set, view_arg, view_dict, ArgView};

verus! {

/// An option specific to one client role, as a key/value pair.
#[derive(Debug)]
pub enum WampOption<K, V> {
    /// A publisher role feature option
    PublishOption(K, V),
    /// A subscriber role feature option
    SubscribeOption(K, V),
    /// A caller role feature option
    CallOption(K, V),
    /// A callee role feature option
    RegisterOption(K, V),
    /// An empty option
    Absent,
}

/// Builds role option dictionaries: a type implementing this wraps an
/// optional dictionary and grows it one validated option at a time.
pub trait OptionBuilder: Sized {
    /// Creates a builder over the given dictionary.
    fn create(options: Option<WampDict>) -> (r: Self)
        ensures
            r.dict_spec() == options,
    ;

    /// A copy of the dictionary being built, if any entry was added.
    fn get_dict(&self) -> (r: Option<WampDict>)
        ensures
            match (r, self.dict_spec()) {
                (Option::Some(d), Option::Some(m)) => view_dict(d) == view_dict(m),
                (Option::None, Option::None) => true,
                _ => false,
            },
    ;

    /// The dictionary the builder holds.
    spec fn dict_spec(&self) -> Option<WampDict>;
}

/// Validates an option: every keyed option passes as its key/value pair,
/// and only the empty option is invalid.
pub fn validate_option(option: WampOption<WampString, Arg>) -> (r: Option<(WampString, Arg)>)
    ensures
        match option {
            WampOption::PublishOption(k, v) => r == Option::Some((k, v)),
            WampOption::SubscribeOption(k, v) => r == Option::Some((k, v)),
            WampOption::CallOption(k, v) => r == Option::Some((k, v)),
            WampOption::RegisterOption(k, v) => r == Option::Some((k, v)),
            WampOption::Absent => r is None,
        },
{
    match option {
        WampOption::PublishOption(key, value) => Option::Some((key, value)),
        WampOption::SubscribeOption(key, value) => Option::Some((key, value)),
        WampOption::RegisterOption(key, value) => Option::Some((key, value)),
        WampOption::CallOption(key, value) => Option::Some((key, value)),
        WampOption::Absent => Option::None,
    }
}

/// Stores the subscribe-option dictionary being built.
pub struct SubscriptionOptionItem {
    /// The dictionary built so far, if any option was added
    pub options: Option<WampDict>,
}

impl OptionBuilder for SubscriptionOptionItem {
    fn create(options: Option<WampDict>) -> (r: Self) {
        SubscriptionOptionItem { options }
    }

    fn get_dict(&self) -> (r: Option<WampDict>) {
        match &self.options {
            Option::Some(d) => Option::Some(clone_dict(d)),
            Option::None => Option::None,
        }
    }

    open spec fn dict_spec(&self) -> Option<WampDict> {
        self.options
    }
}

impl SubscriptionOptionItem {
    /// An empty builder.
    pub fn empty() -> (r: Self)
        ensures
            r.dict_spec() is None,
    {
        SubscriptionOptionItem { options: Option::None }
    }

    /// The dictionary a builder's lookups see: empty until an option is
    /// added.
    pub open spec fn entries_spec(&self) -> Seq<(Seq<char>, ArgView)> {
        match self.dict_spec() {
            Option::Some(d) => view_dict(d),
            Option::None => Seq::empty(),
        }
    }

    /// Inserts a validated option into a copy of the dictionary,
    /// overwriting any earlier entry under the same key.
    pub fn with_option(&self, option: WampOption<WampString, Arg>) -> (r: Self)
        requires
            !(option is Absent),
        ensures
            r.dict_spec() is Some,
            forall|k: Seq<char>|
                #[trigger] dict_find(r.entries_spec(), k) == if k == option_key(option)@ {
                    Option::Some(view_arg(option_value(option)))
                } else {
                    dict_find(self.entries_spec(), k)
                },
    {
        let mut next_options: WampDict = match self.get_dict() {
            Option::Some(opts) => opts,
            Option::None => Vec::new(),
        };
        proof {
            if self.dict_spec() is None {
                reveal_with_fuel(dict_find, 2);
                assert(view_dict(next_options) =~= Seq::<(Seq<char>, ArgView)>::empty());
            }
        }
        let (key, value) = match validate_option(option) {
            Option::Some(result) => result,
            Option::None => {
                proof {
                    assert(false);
                }
                unreached()
            },
        };
        dict_set(&mut next_options, key, value);
        SubscriptionOptionItem { options: Option::Some(next_options) }
    }

    /// Adds a `match` option selecting pattern-based subscription:
    /// `exact`, `prefix` or `wildcard`. An earlier `match` entry is
    /// overwritten.
    pub fn with_match(&self, match_option: &str) -> (r: Self)
        ensures
            r.dict_spec() is Some,
            forall|k: Seq<char>|
                #[trigger] dict_find(r.entries_spec(), k) == if k == "match"@ {
                    Option::Some(ArgView::Text(match_option@))
                } else {
                    dict_find(self.entries_spec(), k)
                },
    {
        self.with_option(
            WampOption::SubscribeOption(
                String::from_str("match"),
                Arg::Text(String::from_str(match_option)),
            ),
        )
    }
}

/// The key of a non-empty option.
pub open spec fn option_key(option: WampOption<WampString, Arg>) -> WampString
    recommends
        !(option is Absent),
{
    match option {
        WampOption::PublishOption(k, _) => k,
        WampOption::SubscribeOption(k, _) => k,
        WampOption::CallOption(k, _) => k,
        WampOption::RegisterOption(k, _) => k,
        WampOption::Absent => arbitrary(),
    }
}

/// The value of a non-empty option.
pub open spec fn option_value(option: WampOption<WampString, Arg>) -> Arg
    recommends
        !(option is Absent),
{
    match option {
        WampOption::PublishOption(_, v) => v,
        WampOption::SubscribeOption(_, v) => v,
        WampOption::CallOption(_, v) => v,
        WampOption::RegisterOption(_, v) => v,
        WampOption::Absent => arbitrary(),
    }
}

} // verus!
