//! The evaluated MicroPython configuration of a build: every definition of
//! the preprocessed configuration table with the value it evaluates to, and
//! the headers the table was read from.

use vstd::prelude::*;

use crate::config_map::{ConfigMap, bytes_equal, distinct_names, lookup, str_equal};
use crate::expression::{
    ConfigValue, ConfigValueView, EvalFailure, EvaluatedValue, evaluate_config, evaluate_raw,
    integer_of,
};

verus! {

/// The configuration of a build.
pub struct Config {
    definitions: ConfigMap<ConfigValue>,
    deps: Vec<Vec<u8>>,
}

/// The mathematical content of a [`Config`].
pub struct ConfigView {
    pub definitions: Seq<(Seq<char>, ConfigValueView)>,
    pub deps: Seq<Seq<u8>>,
}

pub open spec fn bytes_view(paths: Seq<Vec<u8>>) -> Seq<Seq<u8>> {
    paths.map_values(|p: Vec<u8>| p@)
}

impl View for Config {
    type V = ConfigView;

    closed spec fn view(&self) -> ConfigView {
        ConfigView { definitions: self.definitions@, deps: bytes_view(self.deps@) }
    }
}

/// Each raw definition paired with what it evaluates to.
pub open spec fn evaluated_definitions(raw: Seq<(Seq<char>, Seq<char>)>) -> Seq<
    (Seq<char>, ConfigValueView),
> {
    raw.map_values(
        |e: (Seq<char>, Seq<char>)| (e.0, ConfigValueView { raw: e.1, evaluated: evaluate_raw(e.1) }),
    )
}

/// `paths` without its first occurrence of `path`.
pub open spec fn without_first(paths: Seq<Seq<u8>>, path: Seq<u8>) -> Seq<Seq<u8>> {
    match paths.index_of_first(path) {
        Some(i) => paths.subrange(0, i).add(paths.subrange(i + 1, paths.len() as int)),
        None => paths,
    }
}

impl Config {
    /// The configuration that a scanned table and the dependencies of the
    /// preprocessor run give, once the file that the preprocessor was run on
    /// is taken out of the dependencies.
    pub fn assemble(table: ConfigMap<String>, dependencies: Vec<Vec<u8>>, wrapper: &[u8]) -> (c:
        Config)
        requires
            bytes_view(dependencies@).contains(wrapper@),
        ensures
            c@.definitions == evaluated_definitions(table@),
            c@.deps == without_first(bytes_view(dependencies@), wrapper@),
    {
        let ghost raw = table@;
        let definitions = evaluate_config(table);
        assert(definitions@ =~= evaluated_definitions(raw));
        let mut deps = dependencies;
        let ghost paths = bytes_view(deps@);
        let mut i: usize = 0;
        while i < deps.len() && !bytes_equal(deps[i].as_slice(), wrapper)
            invariant
                paths == bytes_view(deps@),
                paths.contains(wrapper@),
                0 <= i <= deps@.len(),
                forall|j: int| 0 <= j < i ==> #[trigger] paths[j] != wrapper@,
            decreases deps@.len() - i,
        {
            i += 1;
        }
        proof {
            paths.index_of_first_ensures(wrapper@);
            let k = paths.index_of_first(wrapper@).unwrap();
            if i == deps@.len() {
                assert(paths[k] == wrapper@);
            }
            assert(paths[i as int] == wrapper@);
            assert(k == i) by {
                if k < i {
                    assert(paths[k] != wrapper@);
                }
            }
        }
        deps.remove(i);
        proof {
            assert(bytes_view(deps@) =~= without_first(paths, wrapper@));
        }
        Config { definitions, deps }
    }

    /// The definitions, in the order the table lists them.
    pub fn definitions(&self) -> (d: &ConfigMap<ConfigValue>)
        ensures
            d@ == self@.definitions,
    {
        &self.definitions
    }

    /// The headers that the configuration was read from.
    pub fn deps(&self) -> (d: &Vec<Vec<u8>>)
        ensures
            bytes_view(d@) == self@.deps,
    {
        &self.deps
    }

    pub fn into_inner(self) -> (parts: (ConfigMap<ConfigValue>, Vec<Vec<u8>>))
        ensures
            parts.0@ == self@.definitions,
            bytes_view(parts.1@) == self@.deps,
    {
        (self.definitions, self.deps)
    }
}

/// The integer that `name` is defined to, if it evaluates to one.
pub open spec fn integer_value(
    definitions: Seq<(Seq<char>, ConfigValueView)>,
    name: Seq<char>,
) -> Option<i128> {
    match lookup(definitions, name) {
        Some(v) => integer_of(v),
        None => None,
    }
}

/// The first of `constants` that is defined to the same integer as
/// `selector`, when `selector` is defined to an integer.
pub open spec fn first_selected(
    definitions: Seq<(Seq<char>, ConfigValueView)>,
    selector: Seq<char>,
    constants: Seq<Seq<char>>,
) -> Option<int> {
    match integer_value(definitions, selector) {
        None => None,
        Some(selected) => if exists|i: int|
            0 <= i < constants.len() && integer_value(definitions, constants[i]) == Some(
                selected,
            ) {
            Some(
                choose|i: int|
                    0 <= i < constants.len() && integer_value(definitions, constants[i]) == Some(
                        selected,
                    ) && forall|j: int|
                        0 <= j < i ==> integer_value(definitions, #[trigger] constants[j])
                            != Some(selected),
            )
        } else {
            None
        },
    }
}

pub open spec fn strs_view(s: Seq<&str>) -> Seq<Seq<char>> {
    s.map_values(|x: &str| x@)
}

/// Which of the `constants` of an enumerated option `selector` selects.
pub fn selected_enum_constant<'a>(
    definitions: &ConfigMap<ConfigValue>,
    selector: &str,
    constants: &[&'a str],
) -> (r: Option<&'a str>)
    ensures
        match first_selected(definitions@, selector@, strs_view(constants@)) {
            Some(i) => r == Some(constants@[i]),
            None => r is None,
        },
{
    let selected = match definitions.get(selector) {
        None => {
            return None;
        },
        Some(value) => match value.integer() {
            None => {
                return None;
            },
            Some(v) => v,
        },
    };
    let ghost names = strs_view(constants@);
    let mut i: usize = 0;
    while i < constants.len()
        invariant
            names == strs_view(constants@),
            integer_value(definitions@, selector@) == Some(selected),
            0 <= i <= constants@.len(),
            forall|j: int|
                0 <= j < i ==> integer_value(definitions@, #[trigger] names[j]) != Some(selected),
        decreases constants@.len() - i,
    {
        let found = match definitions.get(constants[i]) {
            Some(value) => match value.integer() {
                Some(v) => v == selected,
                None => false,
            },
            None => false,
        };
        assert(names[i as int] == constants@[i as int]@);
        if found {
            proof {
                let k = first_selected(definitions@, selector@, names).unwrap();
                assert(names[k] == names[k]);
                if k < i {
                    assert(integer_value(definitions@, names[k]) != Some(selected));
                }
                if k > i {
                    assert(integer_value(definitions@, names[i as int]) == Some(selected));
                }
                assert(k == i);
            }
            return Some(constants[i]);
        }
        i += 1;
    }
    None
}

/// Whether a definition turns its `micropython` cfg on: a non-zero integer
/// or an empty definition does, a value that is not an integer does not.
pub open spec fn enables_cfg(v: ConfigValueView) -> bool {
    match v.evaluated {
        Ok(EvaluatedValue::Integer(n)) => n != 0,
        Ok(EvaluatedValue::EmptyDefinition) => true,
        Err(_) => false,
    }
}

pub fn value_enables_cfg(value: &ConfigValue) -> (b: bool)
    ensures
        b == enables_cfg(value@),
{
    match &value.evaluated {
        Ok(EvaluatedValue::Integer(n)) => *n != 0,
        Ok(EvaluatedValue::EmptyDefinition) => true,
        Err(_) => false,
    }
}

/// Whether `name` is the selector or one of the constants of an enumerated
/// option.
pub open spec fn is_enum_name(name: Seq<char>, enum_configs: Seq<(&str, &[&str])>) -> bool {
    exists|i: int|
        0 <= i < enum_configs.len() && (enum_configs[i].0@ == name || strs_view(
            enum_configs[i].1@,
        ).contains(name))
}

/// The names whose `micropython` cfg is turned on, in the order of the
/// definitions; enumerated options are left to [`selected_enum_constant`].
pub open spec fn cfg_flags(
    definitions: Seq<(Seq<char>, ConfigValueView)>,
    enum_configs: Seq<(&str, &[&str])>,
) -> Seq<Seq<char>>
    decreases definitions.len(),
{
    if definitions.len() == 0 {
        seq![]
    } else {
        let e = definitions.last();
        cfg_flags(definitions.drop_last(), enum_configs) + if !is_enum_name(e.0, enum_configs)
            && enables_cfg(e.1) {
            seq![e.0]
        } else {
            seq![]
        }
    }
}

fn enum_name(name: &str, enum_configs: &[(&str, &[&str])]) -> (b: bool)
    ensures
        b == is_enum_name(name@, enum_configs@),
{
    let mut i: usize = 0;
    while i < enum_configs.len()
        invariant
            0 <= i <= enum_configs@.len(),
            forall|k: int|
                0 <= k < i ==> !(#[trigger] enum_configs@[k].0@ == name@ || strs_view(
                    enum_configs@[k].1@,
                ).contains(name@)),
        decreases enum_configs@.len() - i,
    {
        let selector = enum_configs[i].0;
        let constants = enum_configs[i].1;
        if str_equal(selector, name) {
            assert(enum_configs@[i as int].0@ == name@);
            return true;
        }
        let mut j: usize = 0;
        while j < constants.len()
            invariant
                0 <= i < enum_configs@.len(),
                constants == enum_configs@[i as int].1,
                enum_configs@[i as int].0@ != name@,
                forall|k: int|
                    0 <= k < i ==> !(#[trigger] enum_configs@[k].0@ == name@ || strs_view(
                        enum_configs@[k].1@,
                    ).contains(name@)),
                0 <= j <= constants@.len(),
                forall|k: int| 0 <= k < j ==> #[trigger] constants@[k]@ != name@,
            decreases constants@.len() - j,
        {
            if str_equal(constants[j], name) {
                assert(strs_view(constants@)[j as int] == name@);
                assert(strs_view(enum_configs@[i as int].1@).contains(name@));
                return true;
            }
            j += 1;
        }
        assert(!strs_view(constants@).contains(name@)) by {
            if strs_view(constants@).contains(name@) {
                let k = choose|k: int| 0 <= k < constants@.len() && strs_view(constants@)[k] == name@;
                assert(constants@[k]@ != name@);
            }
        }
        assert forall|k: int|
            0 <= k < i + 1 implies !(#[trigger] enum_configs@[k].0@ == name@ || strs_view(
                enum_configs@[k].1@,
            ).contains(name@)) by {
            if k == i {
                assert(constants == enum_configs@[i as int].1);
            }
        }
        i += 1;
    }
    false
}

impl Config {
    /// The names whose `micropython` cfg the configuration turns on, apart
    /// from enumerated options, in the order of the definitions (the order of
    /// names).
    pub fn enabled_cfgs(&self, enum_configs: &[(&str, &[&str])]) -> (names: Vec<String>)
        ensures
            names@.map_values(|s: String| s@) == cfg_flags(self@.definitions, enum_configs@),
    {
        let ghost defs = self@.definitions;
        let n = self.definitions.len();
        let mut names: Vec<String> = Vec::new();
        let mut i: usize = 0;
        assert(defs.take(0) =~= Seq::<(Seq<char>, ConfigValueView)>::empty());
        while i < n
            invariant
                defs == self@.definitions,
                n == defs.len(),
                0 <= i <= n,
                names@.map_values(|s: String| s@) == cfg_flags(defs.take(i as int), enum_configs@),
            decreases n - i,
        {
            let (name, value) = self.definitions.entry(i);
            let ghost before = names@;
            assert(defs.take(i + 1).drop_last() =~= defs.take(i as int));
            assert(defs.take(i + 1).last() == defs[i as int]);
            if !enum_name(name.as_str(), enum_configs) && value_enables_cfg(value) {
                names.push(name.clone());
                assert(names@.map_values(|s: String| s@) =~= before.map_values(|s: String| s@).push(
                    name@,
                ));
            } else {
                assert(cfg_flags(defs.take(i + 1), enum_configs@) =~= cfg_flags(defs.take(i as int), enum_configs@));
            }
            i += 1;
        }
        assert(defs.take(n as int) =~= defs);
        names
    }
}

/// For each enumerated option in turn, the constant it selects, if any.
pub open spec fn selected_cfgs(
    definitions: Seq<(Seq<char>, ConfigValueView)>,
    enum_configs: Seq<(&str, &[&str])>,
) -> Seq<Seq<char>>
    decreases enum_configs.len(),
{
    if enum_configs.len() == 0 {
        seq![]
    } else {
        let (selector, constants) = enum_configs.last();
        selected_cfgs(definitions, enum_configs.drop_last()) + match first_selected(
            definitions,
            selector@,
            strs_view(constants@),
        ) {
            Some(i) => seq![constants@[i]@],
            None => seq![],
        }
    }
}

impl Config {
    /// The constants that the enumerated options select, in their order.
    pub fn selected_cfgs(&self, enum_configs: &[(&str, &[&str])]) -> (names: Vec<String>)
        ensures
            names@.map_values(|s: String| s@) == selected_cfgs(self@.definitions, enum_configs@),
    {
        let n = enum_configs.len();
        let mut names: Vec<String> = Vec::new();
        let mut i: usize = 0;
        assert(enum_configs@.take(0) =~= Seq::<(&str, &[&str])>::empty());
        while i < n
            invariant
                n == enum_configs@.len(),
                0 <= i <= n,
                names@.map_values(|s: String| s@) == selected_cfgs(
                    self@.definitions,
                    enum_configs@.take(i as int),
                ),
            decreases n - i,
        {
            let ghost before = names@;
            assert(enum_configs@.take(i + 1).drop_last() =~= enum_configs@.take(i as int));
            assert(enum_configs@.take(i + 1).last() == enum_configs@[i as int]);
            match selected_enum_constant(&self.definitions, enum_configs[i].0, enum_configs[i].1) {
                Some(constant) => {
                    names.push(constant.to_owned());
                    assert(names@.map_values(|s: String| s@) =~= before.map_values(|s: String| s@).push(
                        constant@,
                    ));
                },
                None => {
                    assert(names@.map_values(|s: String| s@) =~= before.map_values(|s: String| s@));
                },
            }
            i += 1;
        }
        assert(enum_configs@.take(n as int) =~= enum_configs@);
        names
    }
}


/// A name is among the cfg flags exactly when it is not an enumerated
/// option and some definition of it turns its cfg on.
proof fn lemma_cfg_flags_members(
    definitions: Seq<(Seq<char>, ConfigValueView)>,
    enum_configs: Seq<(&str, &[&str])>,
    name: Seq<char>,
)
    ensures
        cfg_flags(definitions, enum_configs).contains(name) <==> !is_enum_name(name, enum_configs)
            && exists|j: int|
            0 <= j < definitions.len() && #[trigger] definitions[j].0 == name && enables_cfg(
                definitions[j].1,
            ),
    decreases definitions.len(),
{
    if definitions.len() > 0 {
        let rest = definitions.drop_last();
        let e = definitions.last();
        lemma_cfg_flags_members(rest, enum_configs, name);
        let added: Seq<Seq<char>> = if !is_enum_name(e.0, enum_configs) && enables_cfg(e.1) {
            seq![e.0]
        } else {
            seq![]
        };
        assert(cfg_flags(definitions, enum_configs) == cfg_flags(rest, enum_configs) + added);
        if cfg_flags(definitions, enum_configs).contains(name) {
            let k = choose|k: int|
                0 <= k < cfg_flags(definitions, enum_configs).len() && cfg_flags(
                    definitions,
                    enum_configs,
                )[k] == name;
            if k < cfg_flags(rest, enum_configs).len() {
                assert(cfg_flags(rest, enum_configs)[k] == name);
                let j = choose|j: int|
                    0 <= j < rest.len() && #[trigger] rest[j].0 == name && enables_cfg(rest[j].1);
                assert(definitions[j] == rest[j]);
            } else {
                assert(definitions[definitions.len() - 1].0 == name);
            }
        }
        if !is_enum_name(name, enum_configs) && exists|j: int|
            0 <= j < definitions.len() && #[trigger] definitions[j].0 == name && enables_cfg(
                definitions[j].1,
            ) {
            let j = choose|j: int|
                0 <= j < definitions.len() && #[trigger] definitions[j].0 == name && enables_cfg(
                    definitions[j].1,
                );
            if j < rest.len() {
                assert(rest[j] == definitions[j]);
                let k = choose|k: int|
                    0 <= k < cfg_flags(rest, enum_configs).len() && cfg_flags(rest, enum_configs)[k]
                        == name;
                assert(cfg_flags(definitions, enum_configs)[k] == name);
            } else {
                assert(cfg_flags(definitions, enum_configs)[cfg_flags(rest, enum_configs).len() as int]
                    == name);
            }
        }
    }
}

/// A definition that evaluates to an integer turns its `micropython` cfg on
/// exactly when the integer is not zero (2 and 256 do, 0 does not); an empty
/// definition turns it on, and one that does not evaluate does not. Enumerated
/// options are left out of the flags whatever their value.
pub proof fn lemma_value_turns_cfg_on(
    definitions: Seq<(Seq<char>, ConfigValueView)>,
    enum_configs: Seq<(&str, &[&str])>,
    i: int,
)
    requires
        distinct_names(definitions),
        0 <= i < definitions.len(),
    ensures
        is_enum_name(definitions[i].0, enum_configs) ==> !cfg_flags(
            definitions,
            enum_configs,
        ).contains(definitions[i].0),
        !is_enum_name(definitions[i].0, enum_configs) ==> {
            let on = cfg_flags(definitions, enum_configs).contains(definitions[i].0);
            &&& definitions[i].1.evaluated matches Ok(EvaluatedValue::Integer(n)) ==> (on <==> n
                != 0)
            &&& definitions[i].1.evaluated == Ok::<EvaluatedValue, EvalFailure>(
                EvaluatedValue::EmptyDefinition,
            ) ==> on
            &&& definitions[i].1.evaluated is Err ==> !on
        },
{
    let name = definitions[i].0;
    lemma_cfg_flags_members(definitions, enum_configs, name);
    assert forall|j: int| 0 <= j < definitions.len() && #[trigger] definitions[j].0 == name implies j
        == i by {
        if j < i {
            assert(definitions[j].0 != definitions[i].0);
        } else if j > i {
            assert(definitions[i].0 != definitions[j].0);
        }
    }
}

} // verus!
