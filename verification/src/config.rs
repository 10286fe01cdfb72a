//! Typed configuration tables built from raw INI key/value pairs.
//!
//! A raw configuration (sections of key/optional-value pairs, as an INI
//! reader hands them over) is folded into five mappings, one per inferred
//! type. Section names are dropped, so keys from different sections share
//! one flat namespace and the last classification of a key wins.

use crate::value::TypedValue;
use crate::value::bool_literal_value;
use crate::value::integer_literal_value;
use crate::value::is_bool_literal;
use crate::value::is_float_literal;
use crate::value::is_integer_literal;
use vstd::hash_map::StringHashMap;
use vstd::prelude::*;

verus! {

/// The mathematical content of a typed configuration: the five mappings,
/// keyed by the key text.
#[verifier::ext_equal]
pub ghost struct ConfigModel {
    pub integers: Map<Seq<char>, int>,
    pub floats: Map<Seq<char>, Seq<char>>,
    pub texts: Map<Seq<char>, Seq<char>>,
    pub booleans: Map<Seq<char>, bool>,
    pub valueless: Set<Seq<char>>,
}

impl ConfigModel {
    /// The model with no keys at all.
    pub open spec fn empty() -> ConfigModel {
        ConfigModel {
            integers: Map::empty(),
            floats: Map::empty(),
            texts: Map::empty(),
            booleans: Map::empty(),
            valueless: Set::empty(),
        }
    }

    /// File `key` under the integer mapping, withdrawing it everywhere else.
    pub open spec fn with_integer(self, key: Seq<char>, n: int) -> ConfigModel {
        ConfigModel {
            integers: self.integers.insert(key, n),
            floats: self.floats.remove(key),
            texts: self.texts.remove(key),
            booleans: self.booleans.remove(key),
            valueless: self.valueless.remove(key),
        }
    }

    /// File `key` under the float mapping, withdrawing it everywhere else.
    pub open spec fn with_float(self, key: Seq<char>, raw: Seq<char>) -> ConfigModel {
        ConfigModel {
            integers: self.integers.remove(key),
            floats: self.floats.insert(key, raw),
            texts: self.texts.remove(key),
            booleans: self.booleans.remove(key),
            valueless: self.valueless.remove(key),
        }
    }

    /// File `key` under the string mapping, withdrawing it everywhere else.
    pub open spec fn with_text(self, key: Seq<char>, raw: Seq<char>) -> ConfigModel {
        ConfigModel {
            integers: self.integers.remove(key),
            floats: self.floats.remove(key),
            texts: self.texts.insert(key, raw),
            booleans: self.booleans.remove(key),
            valueless: self.valueless.remove(key),
        }
    }

    /// File `key` under the boolean mapping, withdrawing it everywhere else.
    pub open spec fn with_boolean(self, key: Seq<char>, b: bool) -> ConfigModel {
        ConfigModel {
            integers: self.integers.remove(key),
            floats: self.floats.remove(key),
            texts: self.texts.remove(key),
            booleans: self.booleans.insert(key, b),
            valueless: self.valueless.remove(key),
        }
    }

    /// File `key` under the no-value mapping, withdrawing it everywhere else.
    pub open spec fn with_valueless(self, key: Seq<char>) -> ConfigModel {
        ConfigModel {
            integers: self.integers.remove(key),
            floats: self.floats.remove(key),
            texts: self.texts.remove(key),
            booleans: self.booleans.remove(key),
            valueless: self.valueless.insert(key),
        }
    }

    /// Every key appears in at most one of the five mappings.
    pub open spec fn partitioned(self) -> bool {
        &&& self.integers.dom().disjoint(self.floats.dom())
        &&& self.integers.dom().disjoint(self.texts.dom())
        &&& self.integers.dom().disjoint(self.booleans.dom())
        &&& self.integers.dom().disjoint(self.valueless)
        &&& self.floats.dom().disjoint(self.texts.dom())
        &&& self.floats.dom().disjoint(self.booleans.dom())
        &&& self.floats.dom().disjoint(self.valueless)
        &&& self.texts.dom().disjoint(self.booleans.dom())
        &&& self.texts.dom().disjoint(self.valueless)
        &&& self.booleans.dom().disjoint(self.valueless)
    }
}

/// How one raw pair lands in the model: an absent value is filed under
/// the no-value mapping; a present value is classified by the strict
/// precedence order integer, float, boolean, string.
pub open spec fn model_insert(m: ConfigModel, key: Seq<char>, value: Option<Seq<char>>) -> ConfigModel {
    match value {
        Option::None => m.with_valueless(key),
        Option::Some(raw) => if is_integer_literal(raw) {
            m.with_integer(key, integer_literal_value(raw))
        } else if is_float_literal(raw) {
            m.with_float(key, raw)
        } else if is_bool_literal(raw) {
            m.with_boolean(key, bool_literal_value(raw))
        } else {
            m.with_text(key, raw)
        },
    }
}

/// Fold a list of raw pairs into the model, in order.
pub open spec fn model_insert_pairs(
    m: ConfigModel,
    pairs: Seq<(Seq<char>, Option<Seq<char>>)>,
) -> ConfigModel
    decreases pairs.len(),
{
    if pairs.len() == 0 {
        m
    } else {
        model_insert(model_insert_pairs(m, pairs.drop_last()), pairs.last().0, pairs.last().1)
    }
}

/// Fold whole sections into the model, in order.
pub open spec fn model_build_from(
    m: ConfigModel,
    sections: Seq<Seq<(Seq<char>, Option<Seq<char>>)>>,
) -> ConfigModel
    decreases sections.len(),
{
    if sections.len() == 0 {
        m
    } else {
        model_insert_pairs(model_build_from(m, sections.drop_last()), sections.last())
    }
}

/// The model of a whole build: every pair of every section classified
/// and filed, starting from the empty model.
pub open spec fn model_build(sections: Seq<Seq<(Seq<char>, Option<Seq<char>>)>>) -> ConfigModel {
    model_build_from(ConfigModel::empty(), sections)
}

/// One section of a raw configuration: its name and its key/value pairs,
/// where a key may stand without a value.
pub struct RawSection {
    pub name: String,
    pub properties: Vec<(String, Option<String>)>,
}

impl RawSection {
    /// The section's pairs as mathematical values.
    pub open spec fn pairs(self) -> Seq<(Seq<char>, Option<Seq<char>>)> {
        self.properties@.map_values(|p: (String, Option<String>)| (p.0@, p.1.deep_view()))
    }
}

/// A raw configuration, as an INI reader reports it: sections in the
/// order they are to be folded in.
pub struct RawConfig {
    pub sections: Vec<RawSection>,
}

impl RawConfig {
    /// The pair lists of all sections, in order; section names play no
    /// further part.
    pub open spec fn pair_lists(self) -> Seq<Seq<(Seq<char>, Option<Seq<char>>)>> {
        self.sections@.map_values(|sec: RawSection| sec.pairs())
    }
}

/// The typed configuration: one mapping per inferred type, keyed by the
/// original key names. The float mapping keeps the literal text of each
/// float value.
pub struct TypedConfig {
    pub integer_config: StringHashMap<i128>,
    pub float_config: StringHashMap<String>,
    pub string_config: StringHashMap<String>,
    pub bool_config: StringHashMap<bool>,
    pub none_config: StringHashMap<()>,
}

impl View for TypedConfig {
    type V = ConfigModel;

    open spec fn view(&self) -> ConfigModel {
        ConfigModel {
            integers: self.integer_config@.map_values(|v: i128| v as int),
            floats: self.float_config@.map_values(|v: String| v@),
            texts: self.string_config@.map_values(|v: String| v@),
            booleans: self.bool_config@,
            valueless: self.none_config@.dom(),
        }
    }
}

proof fn lemma_map_values_insert<V, W>(m: Map<Seq<char>, V>, k: Seq<char>, v: V, f: spec_fn(V) -> W)
    ensures
        m.insert(k, v).map_values(f) == m.map_values(f).insert(k, f(v)),
{
    assert(m.insert(k, v).map_values(f) =~= m.map_values(f).insert(k, f(v)));
}

proof fn lemma_map_values_remove<V, W>(m: Map<Seq<char>, V>, k: Seq<char>, f: spec_fn(V) -> W)
    ensures
        m.remove(k).map_values(f) == m.map_values(f).remove(k),
{
    assert(m.remove(k).map_values(f) =~= m.map_values(f).remove(k));
}

impl TypedConfig {
    /// The empty typed configuration.
    pub fn new() -> (r: TypedConfig)
        ensures
            r@ == ConfigModel::empty(),
    {
        let r = TypedConfig {
            integer_config: StringHashMap::new(),
            float_config: StringHashMap::new(),
            string_config: StringHashMap::new(),
            bool_config: StringHashMap::new(),
            none_config: StringHashMap::new(),
        };
        proof {
            assert(r@ =~= ConfigModel::empty());
        }
        r
    }

    /// File `key` with an integer value, withdrawing it from every other
    /// mapping.
    pub fn insert_integer_value(&mut self, key: String, value: i128)
        ensures
            final(self)@ == old(self)@.with_integer(key@, value as int),
    {
        self.float_config.remove(key.as_str());
        self.string_config.remove(key.as_str());
        self.bool_config.remove(key.as_str());
        self.none_config.remove(key.as_str());
        self.integer_config.insert(key, value);
        proof {
            lemma_map_values_insert(old(self).integer_config@, key@, value, |v: i128| v as int);
            lemma_map_values_remove(old(self).float_config@, key@, |v: String| v@);
            lemma_map_values_remove(old(self).string_config@, key@, |v: String| v@);
            assert(self@ =~= old(self)@.with_integer(key@, value as int));
        }
    }

    /// File `key` with the literal text of a float value, withdrawing it
    /// from every other mapping.
    pub fn insert_float_value(&mut self, key: String, value: String)
        ensures
            final(self)@ == old(self)@.with_float(key@, value@),
    {
        self.integer_config.remove(key.as_str());
        self.string_config.remove(key.as_str());
        self.bool_config.remove(key.as_str());
        self.none_config.remove(key.as_str());
        self.float_config.insert(key, value);
        proof {
            lemma_map_values_insert(old(self).float_config@, key@, value, |v: String| v@);
            lemma_map_values_remove(old(self).integer_config@, key@, |v: i128| v as int);
            lemma_map_values_remove(old(self).string_config@, key@, |v: String| v@);
            assert(self@ =~= old(self)@.with_float(key@, value@));
        }
    }

    /// File `key` with a plain string value, withdrawing it from every
    /// other mapping.
    pub fn insert_string_value(&mut self, key: String, value: String)
        ensures
            final(self)@ == old(self)@.with_text(key@, value@),
    {
        self.integer_config.remove(key.as_str());
        self.float_config.remove(key.as_str());
        self.bool_config.remove(key.as_str());
        self.none_config.remove(key.as_str());
        self.string_config.insert(key, value);
        proof {
            lemma_map_values_insert(old(self).string_config@, key@, value, |v: String| v@);
            lemma_map_values_remove(old(self).integer_config@, key@, |v: i128| v as int);
            lemma_map_values_remove(old(self).float_config@, key@, |v: String| v@);
            assert(self@ =~= old(self)@.with_text(key@, value@));
        }
    }

    /// File `key` with a boolean value, withdrawing it from every other
    /// mapping.
    pub fn insert_bool_value(&mut self, key: String, value: bool)
        ensures
            final(self)@ == old(self)@.with_boolean(key@, value),
    {
        self.integer_config.remove(key.as_str());
        self.float_config.remove(key.as_str());
        self.string_config.remove(key.as_str());
        self.none_config.remove(key.as_str());
        self.bool_config.insert(key, value);
        proof {
            lemma_map_values_remove(old(self).integer_config@, key@, |v: i128| v as int);
            lemma_map_values_remove(old(self).float_config@, key@, |v: String| v@);
            lemma_map_values_remove(old(self).string_config@, key@, |v: String| v@);
            assert(self@ =~= old(self)@.with_boolean(key@, value));
        }
    }

    /// File `key` as present without a value, withdrawing it from every
    /// other mapping.
    pub fn insert_none_value(&mut self, key: String)
        ensures
            final(self)@ == old(self)@.with_valueless(key@),
    {
        self.integer_config.remove(key.as_str());
        self.float_config.remove(key.as_str());
        self.string_config.remove(key.as_str());
        self.bool_config.remove(key.as_str());
        self.none_config.insert(key, ());
        proof {
            lemma_map_values_remove(old(self).integer_config@, key@, |v: i128| v as int);
            lemma_map_values_remove(old(self).float_config@, key@, |v: String| v@);
            lemma_map_values_remove(old(self).string_config@, key@, |v: String| v@);
            assert(self@ =~= old(self)@.with_valueless(key@));
        }
    }

    /// Classify one raw value and file `key` under the mapping of its
    /// inferred type.
    pub fn insert_typed_value(&mut self, key: String, value: &Option<String>)
        ensures
            final(self)@ == model_insert(old(self)@, key@, value.deep_view()),
    {
        match value {
            Option::None => self.insert_none_value(key),
            Option::Some(raw) => {
                let typed_value = TypedValue::new(raw.clone());
                match typed_value {
                    TypedValue::Integer(n) => self.insert_integer_value(key, n),
                    TypedValue::Float(f) => self.insert_float_value(key, f),
                    TypedValue::Boolean(b) => self.insert_bool_value(key, b),
                    TypedValue::Text(t) => self.insert_string_value(key, t),
                }
            },
        }
    }

    /// Build the typed configuration from a raw one: classify every pair
    /// of every section, in order.
    pub fn raw_to_typed(raw_config: RawConfig) -> (r: TypedConfig)
        ensures
            r@ == model_build(raw_config.pair_lists()),
            r@.partitioned(),
    {
        proof {
            lemma_model_build_partitioned(raw_config.pair_lists());
        }
        let ghost lists = raw_config.pair_lists();
        let mut typed_config = TypedConfig::new();
        let ns = raw_config.sections.len();
        let mut si: usize = 0;
        while si < ns
            invariant
                si <= ns == raw_config.sections@.len(),
                lists == raw_config.pair_lists(),
                typed_config@ == model_build_from(ConfigModel::empty(), lists.take(si as int)),
            decreases ns - si,
        {
            let ghost section_pairs = raw_config.sections@[si as int].pairs();
            let ghost before = typed_config@;
            let np = raw_config.sections[si].properties.len();
            let mut pi: usize = 0;
            while pi < np
                invariant
                    si < ns == raw_config.sections@.len(),
                    np == raw_config.sections@[si as int].properties@.len(),
                    pi <= np,
                    section_pairs == raw_config.sections@[si as int].pairs(),
                    before == model_build_from(ConfigModel::empty(), lists.take(si as int)),
                    lists == raw_config.pair_lists(),
                    typed_config@ == model_insert_pairs(before, section_pairs.take(pi as int)),
                decreases np - pi,
            {
                let pair = &raw_config.sections[si].properties[pi];
                typed_config.insert_typed_value(pair.0.clone(), &pair.1);
                proof {
                    assert(section_pairs.take(pi + 1).drop_last() =~= section_pairs.take(
                        pi as int,
                    ));
                    assert(section_pairs.take(pi + 1).last() == section_pairs[pi as int]);
                }
                pi += 1;
            }
            proof {
                assert(section_pairs.take(np as int) =~= section_pairs);
                assert(lists.take(si + 1).drop_last() =~= lists.take(si as int));
                assert(lists.take(si + 1).last() == lists[si as int]);
                assert(lists[si as int] == section_pairs);
            }
            si += 1;
        }
        proof {
            assert(lists.take(ns as int) =~= lists);
        }
        typed_config
    }

    /// Look up `key` in the integer mapping.
    pub fn get_integer<'a>(&'a self, key: &str) -> (r: Option<&'a i128>)
        ensures
            match r {
                Option::Some(v) => self@.integers.contains_key(key@) && *v as int
                    == self@.integers[key@],
                Option::None => !self@.integers.contains_key(key@),
            },
    {
        self.integer_config.get(key)
    }

    /// Look up `key` in the float mapping; the result is the literal
    /// text of the value.
    pub fn get_float<'a>(&'a self, key: &str) -> (r: Option<&'a String>)
        ensures
            match r {
                Option::Some(v) => self@.floats.contains_key(key@) && v@ == self@.floats[key@],
                Option::None => !self@.floats.contains_key(key@),
            },
    {
        self.float_config.get(key)
    }

    /// Look up `key` in the string mapping.
    pub fn get_string<'a>(&'a self, key: &str) -> (r: Option<&'a String>)
        ensures
            match r {
                Option::Some(v) => self@.texts.contains_key(key@) && v@ == self@.texts[key@],
                Option::None => !self@.texts.contains_key(key@),
            },
    {
        self.string_config.get(key)
    }

    /// Look up `key` in the boolean mapping.
    pub fn get_bool<'a>(&'a self, key: &str) -> (r: Option<&'a bool>)
        ensures
            match r {
                Option::Some(v) => self@.booleans.contains_key(key@) && *v
                    == self@.booleans[key@],
                Option::None => !self@.booleans.contains_key(key@),
            },
    {
        self.bool_config.get(key)
    }

    /// Whether `key` stands in the no-value mapping.
    pub fn has_no_value(&self, key: &str) -> (r: bool)
        ensures
            r == self@.valueless.contains(key@),
    {
        self.none_config.contains_key(key)
    }

    /// The number of keys in the integer mapping.
    pub fn integer_count(&self) -> (n: usize)
        ensures
            n == self@.integers.len(),
    {
        proof {
            assert(self@.integers.dom() =~= self.integer_config@.dom());
        }
        self.integer_config.len()
    }

    /// The number of keys in the float mapping.
    pub fn float_count(&self) -> (n: usize)
        ensures
            n == self@.floats.len(),
    {
        proof {
            assert(self@.floats.dom() =~= self.float_config@.dom());
        }
        self.float_config.len()
    }

    /// The number of keys in the string mapping.
    pub fn string_count(&self) -> (n: usize)
        ensures
            n == self@.texts.len(),
    {
        proof {
            assert(self@.texts.dom() =~= self.string_config@.dom());
        }
        self.string_config.len()
    }

    /// The number of keys in the boolean mapping.
    pub fn bool_count(&self) -> (n: usize)
        ensures
            n == self@.booleans.len(),
    {
        self.bool_config.len()
    }

    /// The number of keys in the no-value mapping.
    pub fn none_count(&self) -> (n: usize)
        ensures
            n == self@.valueless.len(),
    {
        self.none_config.len()
    }
}

/// A raw value that parses fully as a signed integer in range files its
/// key in the integer mapping, with the exact numeric value, and in no
/// other mapping.
pub proof fn lemma_classified_integer(m: ConfigModel, key: Seq<char>, raw: Seq<char>)
    requires
        is_integer_literal(raw),
    ensures
        model_insert(m, key, Option::Some(raw)).integers.contains_key(key),
        model_insert(m, key, Option::Some(raw)).integers[key] == integer_literal_value(raw),
        !model_insert(m, key, Option::Some(raw)).floats.contains_key(key),
        !model_insert(m, key, Option::Some(raw)).texts.contains_key(key),
        !model_insert(m, key, Option::Some(raw)).booleans.contains_key(key),
        !model_insert(m, key, Option::Some(raw)).valueless.contains(key),
{
}

/// A raw value that is no integer but parses fully as a decimal float
/// files its key in the float mapping, holding the literal text, and in
/// no other mapping.
pub proof fn lemma_classified_float(m: ConfigModel, key: Seq<char>, raw: Seq<char>)
    requires
        !is_integer_literal(raw),
        is_float_literal(raw),
    ensures
        model_insert(m, key, Option::Some(raw)).floats.contains_key(key),
        model_insert(m, key, Option::Some(raw)).floats[key] == raw,
        !model_insert(m, key, Option::Some(raw)).integers.contains_key(key),
        !model_insert(m, key, Option::Some(raw)).texts.contains_key(key),
        !model_insert(m, key, Option::Some(raw)).booleans.contains_key(key),
        !model_insert(m, key, Option::Some(raw)).valueless.contains(key),
{
}

/// A raw value that is exactly one of the canonical boolean spellings,
/// and no number, files its key in the boolean mapping with the correct
/// truth value, and in no other mapping.
pub proof fn lemma_classified_boolean(m: ConfigModel, key: Seq<char>, raw: Seq<char>)
    requires
        !is_integer_literal(raw),
        !is_float_literal(raw),
        is_bool_literal(raw),
    ensures
        model_insert(m, key, Option::Some(raw)).booleans.contains_key(key),
        model_insert(m, key, Option::Some(raw)).booleans[key] == bool_literal_value(raw),
        !model_insert(m, key, Option::Some(raw)).integers.contains_key(key),
        !model_insert(m, key, Option::Some(raw)).floats.contains_key(key),
        !model_insert(m, key, Option::Some(raw)).texts.contains_key(key),
        !model_insert(m, key, Option::Some(raw)).valueless.contains(key),
{
}

/// Any other raw value files its key in the string mapping, holding the
/// value verbatim, and in no other mapping.
pub proof fn lemma_classified_text(m: ConfigModel, key: Seq<char>, raw: Seq<char>)
    requires
        !is_integer_literal(raw),
        !is_float_literal(raw),
        !is_bool_literal(raw),
    ensures
        model_insert(m, key, Option::Some(raw)).texts.contains_key(key),
        model_insert(m, key, Option::Some(raw)).texts[key] == raw,
        !model_insert(m, key, Option::Some(raw)).integers.contains_key(key),
        !model_insert(m, key, Option::Some(raw)).floats.contains_key(key),
        !model_insert(m, key, Option::Some(raw)).booleans.contains_key(key),
        !model_insert(m, key, Option::Some(raw)).valueless.contains(key),
{
}

/// A key whose value is absent lands in the no-value mapping, and in no
/// other mapping.
pub proof fn lemma_classified_valueless(m: ConfigModel, key: Seq<char>)
    ensures
        model_insert(m, key, Option::None).valueless.contains(key),
        !model_insert(m, key, Option::None).integers.contains_key(key),
        !model_insert(m, key, Option::None).floats.contains_key(key),
        !model_insert(m, key, Option::None).texts.contains_key(key),
        !model_insert(m, key, Option::None).booleans.contains_key(key),
{
}

/// Building twice from the same raw configuration yields typed mappings
/// with identical contents: the build is a function of its input.
pub proof fn lemma_build_deterministic(
    sections: Seq<Seq<(Seq<char>, Option<Seq<char>>)>>,
    first: ConfigModel,
    second: ConfigModel,
)
    requires
        first == model_build(sections),
        second == model_build(sections),
    ensures
        first == second,
{
}

proof fn lemma_model_insert_partitioned(m: ConfigModel, key: Seq<char>, value: Option<Seq<char>>)
    requires
        m.partitioned(),
    ensures
        model_insert(m, key, value).partitioned(),
{
}

proof fn lemma_insert_pairs_partitioned(m: ConfigModel, pairs: Seq<(Seq<char>, Option<Seq<char>>)>)
    requires
        m.partitioned(),
    ensures
        model_insert_pairs(m, pairs).partitioned(),
    decreases pairs.len(),
{
    if pairs.len() > 0 {
        lemma_insert_pairs_partitioned(m, pairs.drop_last());
        lemma_model_insert_partitioned(
            model_insert_pairs(m, pairs.drop_last()),
            pairs.last().0,
            pairs.last().1,
        );
    }
}

proof fn lemma_build_from_partitioned(
    m: ConfigModel,
    sections: Seq<Seq<(Seq<char>, Option<Seq<char>>)>>,
)
    requires
        m.partitioned(),
    ensures
        model_build_from(m, sections).partitioned(),
    decreases sections.len(),
{
    if sections.len() > 0 {
        lemma_build_from_partitioned(m, sections.drop_last());
        lemma_insert_pairs_partitioned(model_build_from(m, sections.drop_last()), sections.last());
    }
}

/// A built configuration keeps every key in exactly one mapping: the
/// five domains are pairwise disjoint.
pub proof fn lemma_model_build_partitioned(sections: Seq<Seq<(Seq<char>, Option<Seq<char>>)>>)
    ensures
        model_build(sections).partitioned(),
{
    lemma_build_from_partitioned(ConfigModel::empty(), sections);
}

} // verus!
