//! Counters and their registry, as the `prometheus` crate has them.
use prometheus::proto::MetricFamily;
use prometheus::{Encoder, IntCounter, IntCounterVec, Opts, Registry, TextEncoder};
use vstd::prelude::*;
use vstd::utf8::{encode_utf8, valid_utf8};

verus! {

/// `prometheus::Registry`, which holds what is exposed.
///
/// A registry is a handle that can be shared. What is stated of one holds as
/// long as nothing is registered, or taken out again, through another handle of
/// it.
#[verifier::external_type_specification]
#[verifier::external_body]
pub struct ExRegistry(Registry);

/// `prometheus::proto::MetricFamily`, the gathered values of one metric.
#[verifier::external_type_specification]
#[verifier::external_body]
pub struct ExMetricFamily(MetricFamily);

/// `prometheus::Error`.
#[verifier::external_type_specification]
#[verifier::external_body]
pub struct ExPrometheusError(prometheus::Error);

/// A `prometheus::IntCounterVec`: counters of one name, told apart by the
/// values of their labels.
///
/// The handle is private and is handed out to a registry only, which does no
/// more than read it. So only the functions of this module change its counters.
#[verifier::external_body]
pub struct CounterFamily {
    family: IntCounterVec,
}

/// A `prometheus::IntCounter`: one counter without labels.
///
/// As with [`CounterFamily`], only the functions of this module change it.
#[verifier::external_body]
pub struct PlainCounter {
    counter: IntCounter,
}

/// The counters of a family. Each stands under a key, with the label values
/// that it was made with and its count.
pub uninterp spec fn family_series(family: CounterFamily) -> Map<u64, (Seq<Seq<char>>, u64)>;

/// The name under which a family is exposed.
pub uninterp spec fn family_name(family: CounterFamily) -> Seq<char>;

/// The help text of a family.
pub uninterp spec fn family_help(family: CounterFamily) -> Seq<char>;

/// The names of the labels of a family.
pub uninterp spec fn family_labels(family: CounterFamily) -> Seq<Seq<char>>;

/// The count of a counter without labels.
pub uninterp spec fn counter_value(counter: PlainCounter) -> u64;

/// The name under which a counter without labels is exposed.
pub uninterp spec fn counter_name(counter: PlainCounter) -> Seq<char>;

/// The help text of a counter without labels.
pub uninterp spec fn counter_help(counter: PlainCounter) -> Seq<char>;

/// The mathematical content of a [`CounterFamily`].
#[verifier::ext_equal]
pub struct FamilyRecord {
    pub name: Seq<char>,
    pub help: Seq<char>,
    pub labels: Seq<Seq<char>>,
    pub series: Map<u64, (Seq<Seq<char>>, u64)>,
}

impl View for CounterFamily {
    type V = FamilyRecord;

    open spec fn view(&self) -> FamilyRecord {
        FamilyRecord {
            name: family_name(*self),
            help: family_help(*self),
            labels: family_labels(*self),
            series: family_series(*self),
        }
    }
}

/// The mathematical content of a [`PlainCounter`].
#[verifier::ext_equal]
pub struct CounterRecord {
    pub name: Seq<char>,
    pub help: Seq<char>,
    pub value: u64,
}

impl View for PlainCounter {
    type V = CounterRecord;

    open spec fn view(&self) -> CounterRecord {
        CounterRecord {
            name: counter_name(*self),
            help: counter_help(*self),
            value: counter_value(*self),
        }
    }
}

/// The identifiers of the metrics that a registry holds.
pub uninterp spec fn registered_ids(registry: Registry) -> Set<u64>;

/// The dimensions of each metric that a registry has come to know, by its name.
pub uninterp spec fn registered_dims(registry: Registry) -> Map<Seq<char>, u64>;

/// The identifiers of the collectors that a registry holds.
pub uninterp spec fn registered_collectors(registry: Registry) -> Set<u64>;

/// The registry adds neither a prefix to the names nor common labels to the
/// samples of what it exposes.
pub uninterp spec fn adds_nothing(registry: Registry) -> bool;

/// The registry holds this very family: what it gathers, it reads from its
/// counters.
pub uninterp spec fn exposes_family(registry: Registry, family: CounterFamily) -> bool;

/// The registry holds this very counter.
pub uninterp spec fn exposes_counter(registry: Registry, counter: PlainCounter) -> bool;

/// A gathered family is the metric `name`, below the prefix of its registry, and
/// holds a sample for each counter of `series`: with the label values and the
/// count of the counter, the latter rounded to a floating-point number, and with
/// the common labels of the registry. Where another collector exposes the same
/// name, it holds the samples of that one besides.
pub uninterp spec fn shows_series(
    family: MetricFamily,
    name: Seq<char>,
    series: Map<u64, (Seq<Seq<char>>, u64)>,
) -> bool;

/// A gathered family is the metric `name`, below the prefix of its registry, and
/// holds a sample without label values of its own and with this count, as
/// [`shows_series`] has it.
pub uninterp spec fn shows_count(family: MetricFamily, name: Seq<char>, count: u64) -> bool;

/// `families` are values that a registry may gather, now or at another time.
pub uninterp spec fn may_gather(registry: Registry, families: Seq<MetricFamily>) -> bool;

/// What a registry gathers that adds nothing and holds families and a counter of
/// this content, and nothing else: the families in the order of their names, and
/// the samples of each in the order of their label values.
pub uninterp spec fn gathered_alone(
    first: FamilyRecord,
    second: FamilyRecord,
    third: FamilyRecord,
    counter: CounterRecord,
) -> Seq<MetricFamily>;

/// The metrics of a family are of a kind that the text format cannot write.
pub uninterp spec fn family_untyped(family: MetricFamily) -> bool;

/// A gathered family has a name and at least one sample.
pub uninterp spec fn family_filled(family: MetricFamily) -> bool;

/// What the text format makes of gathered families; none where it fails.
pub uninterp spec fn text_encoding(families: Seq<MetricFamily>) -> Option<Seq<u8>>;

/// Where a hash begins.
pub const HASH_START: u64 = 0xcbf2_9ce4_8422_2325;

/// What a hash is multiplied with at each byte.
pub const HASH_PRIME: u64 = 0x100_0000_01b3;

/// A hash after one more byte: the byte is mixed into the low bits, and the
/// product is taken modulo 2^64.
pub open spec fn hash_step(hash: u64, byte: u8) -> u64 {
    ((hash ^ (byte as u64)) * HASH_PRIME) as u64
}

/// The hash of the first `count` of some bytes.
pub open spec fn hash_of_first(bytes: Seq<u8>, count: nat) -> u64
    decreases count,
{
    if count == 0 {
        HASH_START
    } else {
        hash_step(hash_of_first(bytes, (count - 1) as nat), bytes[count - 1])
    }
}

/// The 64-bit FNV-1a hash of some bytes.
#[verifier::opaque]
pub open spec fn fnv_hash(bytes: Seq<u8>) -> u64 {
    hash_of_first(bytes, bytes.len())
}

/// The key under which a family keeps the counter for some label values: the hash
/// of the values, written one behind the other with nothing between them.
pub open spec fn series_key(values: Seq<char>) -> u64 {
    fnv_hash(encode_utf8(values))
}

/// The identifier of a metric without constant labels: the hash of its name with
/// a separator behind it, which is no byte of any text.
pub open spec fn metric_id(name: Seq<char>) -> u64 {
    fnv_hash(encode_utf8(name).push(0xff))
}

/// The order of texts, by the first character in which they differ; what another
/// text begins with comes before it.
pub open spec fn text_le(a: Seq<char>, b: Seq<char>) -> bool
    decreases a.len(),
{
    ||| a.len() == 0
    ||| b.len() > 0 && (a[0] < b[0] || a[0] == b[0] && text_le(a.drop_first(), b.drop_first()))
}

/// The label names of a metric as they are hashed: in their order, each with a
/// dollar sign before it and a separator behind it.
pub open spec fn label_bytes(labels: Seq<Seq<char>>) -> Seq<u8> {
    labels.sort_by(|a: Seq<char>, b: Seq<char>| text_le(a, b)).map_values(
        |label: Seq<char>| encode_utf8(seq!['$'] + label).push(0xff),
    ).flatten()
}

/// The dimensions of a metric without constant labels: the hash of its help text,
/// a separator, and its label names, which differ from each other.
pub open spec fn metric_dims(help: Seq<char>, labels: Seq<Seq<char>>) -> u64 {
    fnv_hash(encode_utf8(help).push(0xff) + label_bytes(labels))
}

/// A count after one more.
pub open spec fn next_count(count: u64) -> u64 {
    if count == u64::MAX {
        0
    } else {
        (count + 1) as u64
    }
}

/// The counters of a family after the one under `key` was increased, which the
/// label values `values` select. The first increase makes the counter. Other
/// label values with the same key increase the counter that is there.
pub open spec fn bumped(
    series: Map<u64, (Seq<Seq<char>>, u64)>,
    key: u64,
    values: Seq<Seq<char>>,
) -> Map<u64, (Seq<Seq<char>>, u64)> {
    if series.dom().contains(key) {
        series.insert(key, (series[key].0, next_count(series[key].1)))
    } else {
        series.insert(key, (values, 1))
    }
}

/// The texts of some string slices.
pub open spec fn slice_texts(slices: Seq<&str>) -> Seq<Seq<char>> {
    slices.map_values(|slice: &str| slice@)
}

/// The letters of a name: those of the English alphabet, and the underscore.
pub open spec fn name_letter(c: char) -> bool {
    'a' <= c <= 'z' || 'A' <= c <= 'Z' || c == '_'
}

/// A valid label name: letters and digits, of which the first is a letter.
pub open spec fn valid_label_name(name: Seq<char>) -> bool {
    &&& name.len() > 0
    &&& name_letter(name[0])
    &&& forall|i: int|
        0 <= i < name.len() ==> name_letter(#[trigger] name[i]) || '0' <= name[i] <= '9'
}

/// A valid metric name: as a label name, with colons among the letters.
pub open spec fn valid_metric_name(name: Seq<char>) -> bool {
    &&& name.len() > 0
    &&& name_letter(name[0]) || name[0] == ':'
    &&& forall|i: int|
        0 <= i < name.len() ==> name_letter(#[trigger] name[i]) || name[i] == ':' || '0' <= name[i]
            <= '9'
}

/// What a metric needs: a valid name, a help text, and valid label names that
/// differ from each other.
pub open spec fn valid_family(name: Seq<char>, help: Seq<char>, labels: Seq<Seq<char>>) -> bool {
    &&& valid_metric_name(name)
    &&& help.len() > 0
    &&& labels.no_duplicates()
    &&& forall|i: int| 0 <= i < labels.len() ==> valid_label_name(#[trigger] labels[i])
}

/// `prometheus::IntCounterVec::new` on `prometheus::Opts::new`: makes a family
/// without any counter yet, if and only if the names are valid, the label names
/// differ and the help text is not empty.
#[verifier::external_body]
pub(crate) fn new_family(name: &str, help: &str, labels: &[&str]) -> (made: Result<
    CounterFamily,
    prometheus::Error,
>)
    ensures
        match made {
            Ok(family) => {
                &&& valid_family(name@, help@, slice_texts(labels@))
                &&& family_series(family) == Map::<u64, (Seq<Seq<char>>, u64)>::empty()
                &&& family_name(family) == name@
                &&& family_help(family) == help@
                &&& family_labels(family) == slice_texts(labels@)
            },
            Err(_) => !valid_family(name@, help@, slice_texts(labels@)),
        },
{
    let family = IntCounterVec::new(Opts::new(name, help), labels)?;
    Ok(CounterFamily { family })
}

/// `prometheus::IntCounter::new`: makes a counter at zero, if and only if the
/// name is valid and the help text is not empty.
#[verifier::external_body]
pub(crate) fn new_counter(name: &str, help: &str) -> (made: Result<PlainCounter, prometheus::Error>)
    ensures
        match made {
            Ok(counter) => {
                &&& valid_family(name@, help@, Seq::empty())
                &&& counter_value(counter) == 0
                &&& counter_name(counter) == name@
                &&& counter_help(counter) == help@
            },
            Err(_) => !valid_family(name@, help@, Seq::empty()),
        },
{
    let counter = IntCounter::new(name, help)?;
    Ok(PlainCounter { counter })
}

/// `with_label_values` and then `inc`: increases the counter for some label
/// values by one, modulo 2^64, and makes it first where there is none.
/// The family stays the one that a registry may hold. `with_label_values` panics
/// where the number of values is not that of the family's labels.
#[verifier::external_body]
pub(crate) fn inc_series(family: &mut CounterFamily, values: &[&str])
    requires
        values@.len() == family_labels(*old(family)).len(),
    ensures
        family_series(*final(family)) == bumped(
            family_series(*old(family)),
            series_key(slice_texts(values@).flatten()),
            slice_texts(values@),
        ),
        family_name(*final(family)) == family_name(*old(family)),
        family_help(*final(family)) == family_help(*old(family)),
        family_labels(*final(family)) == family_labels(*old(family)),
        forall|registry: Registry|
            exposes_family(registry, *old(family)) ==> #[trigger] exposes_family(
                registry,
                *final(family),
            ),
{
    family.family.with_label_values(values).inc();
}

/// `prometheus::IntCounter::inc`: increases a counter by one, modulo 2^64. It
/// stays the one that a registry may hold.
#[verifier::external_body]
pub(crate) fn inc_counter(counter: &mut PlainCounter)
    ensures
        counter_value(*final(counter)) == next_count(counter_value(*old(counter))),
        counter_name(*final(counter)) == counter_name(*old(counter)),
        counter_help(*final(counter)) == counter_help(*old(counter)),
        forall|registry: Registry|
            exposes_counter(registry, *old(counter)) ==> #[trigger] exposes_counter(
                registry,
                *final(counter),
            ),
{
    counter.counter.inc();
}

/// What a registry holds.
#[verifier::ext_equal]
pub struct RegistryRecord {
    pub ids: Set<u64>,
    pub dims: Map<Seq<char>, u64>,
    pub collectors: Set<u64>,
}

impl RegistryRecord {
    /// The registry holds nothing.
    pub open spec fn empty() -> RegistryRecord {
        RegistryRecord { ids: Set::empty(), dims: Map::empty(), collectors: Set::empty() }
    }

    /// The registry takes a metric: its identifier is free, and a metric of that
    /// name that it knows has the same dimensions.
    pub open spec fn takes(self, name: Seq<char>, id: u64, dims: u64) -> bool {
        &&& !self.ids.contains(id)
        &&& self.dims.dom().contains(name) ==> self.dims[name] == dims
        &&& !self.collectors.contains(id)
    }

    /// The registry after it was given a metric. One that it does not take leaves
    /// its dimensions behind where only the collector's identifier was not free.
    pub open spec fn given(self, name: Seq<char>, id: u64, dims: u64) -> RegistryRecord {
        if self.takes(name, id, dims) {
            RegistryRecord {
                ids: self.ids.insert(id),
                dims: self.dims.insert(name, dims),
                collectors: self.collectors.insert(id),
            }
        } else if !self.ids.contains(id) && (self.dims.dom().contains(name) ==> self.dims[name]
            == dims) {
            RegistryRecord { dims: self.dims.insert(name, dims), ..self }
        } else {
            self
        }
    }
}

/// `prometheus::Registry::new` makes a registry that holds nothing and adds
/// nothing.
pub assume_specification[ Registry::new ]() -> (registry: Registry)
    ensures
        registered_ids(registry) == Set::<u64>::empty(),
        registered_dims(registry).dom() == Set::<Seq<char>>::empty(),
        registered_collectors(registry) == Set::<u64>::empty(),
        adds_nothing(registry),
;

/// What a registry holds.
pub open spec fn registry_record(registry: Registry) -> RegistryRecord {
    RegistryRecord {
        ids: registered_ids(registry),
        dims: registered_dims(registry),
        collectors: registered_collectors(registry),
    }
}

/// `prometheus::Registry::register` on a family: takes it, or refuses it where
/// its identifier is held or its dimensions are not those that are known. The
/// collector of a single metric has the identifier of that metric. A family that
/// is taken is held itself, by a second handle of it, and all that was held
/// stays so.
#[verifier::external_body]
pub(crate) fn register_family(registry: &mut Registry, family: &CounterFamily) -> (taken: Result<
    (),
    prometheus::Error,
>)
    ensures
        (taken is Ok) == registry_record(*old(registry)).takes(
            family_name(*family),
            metric_id(family_name(*family)),
            metric_dims(family_help(*family), family_labels(*family)),
        ),
        registry_record(*final(registry)) == registry_record(*old(registry)).given(
            family_name(*family),
            metric_id(family_name(*family)),
            metric_dims(family_help(*family), family_labels(*family)),
        ),
        taken is Ok ==> exposes_family(*final(registry), *family),
        adds_nothing(*final(registry)) == adds_nothing(*old(registry)),
        forall|other: CounterFamily|
            exposes_family(*old(registry), other) ==> #[trigger] exposes_family(
                *final(registry),
                other,
            ),
        forall|other: PlainCounter|
            exposes_counter(*old(registry), other) ==> #[trigger] exposes_counter(
                *final(registry),
                other,
            ),
{
    registry.register(Box::new(family.family.clone()))
}

/// `prometheus::Registry::register` on a counter without labels, of which the
/// same holds as of a family.
#[verifier::external_body]
pub(crate) fn register_counter(registry: &mut Registry, counter: &PlainCounter) -> (taken: Result<
    (),
    prometheus::Error,
>)
    ensures
        (taken is Ok) == registry_record(*old(registry)).takes(
            counter_name(*counter),
            metric_id(counter_name(*counter)),
            metric_dims(counter_help(*counter), Seq::empty()),
        ),
        registry_record(*final(registry)) == registry_record(*old(registry)).given(
            counter_name(*counter),
            metric_id(counter_name(*counter)),
            metric_dims(counter_help(*counter), Seq::empty()),
        ),
        taken is Ok ==> exposes_counter(*final(registry), *counter),
        adds_nothing(*final(registry)) == adds_nothing(*old(registry)),
        forall|other: CounterFamily|
            exposes_family(*old(registry), other) ==> #[trigger] exposes_family(
                *final(registry),
                other,
            ),
        forall|other: PlainCounter|
            exposes_counter(*old(registry), other) ==> #[trigger] exposes_counter(
                *final(registry),
                other,
            ),
{
    registry.register(Box::new(counter.counter.clone()))
}

/// `prometheus::Registry::gather`: reads the current values of all that a
/// registry holds. Three families and a counter are borrowed meanwhile, so that
/// they do not change. Of these, each that the registry holds is shown with its
/// counts, unless it is a family without any counter. Where the registry holds
/// nothing else and adds nothing, what is gathered is a function of their
/// content, and each gathered family has its name, its type and a sample. Of
/// other metrics nothing is stated.
#[verifier::external_body]
#[allow(unused_variables)]
pub(crate) fn gather_families(
    registry: &Registry,
    first: &CounterFamily,
    second: &CounterFamily,
    third: &CounterFamily,
    counter: &PlainCounter,
) -> (families: Vec<MetricFamily>)
    ensures
        may_gather(*registry, families@),
        forall|held: CounterFamily|
            (held == *first || held == *second || held == *third) && #[trigger] exposes_family(
                *registry,
                held,
            ) && family_series(held).dom() != Set::<u64>::empty() ==> exists|i: int|
                0 <= i < families@.len() && shows_series(
                    #[trigger] families@[i],
                    family_name(held),
                    family_series(held),
                ),
        exposes_counter(*registry, *counter) ==> exists|i: int|
            0 <= i < families@.len() && shows_count(
                #[trigger] families@[i],
                counter_name(*counter),
                counter_value(*counter),
            ),
        exposes_family(*registry, *first) && exposes_family(*registry, *second) && exposes_family(
            *registry,
            *third,
        ) && exposes_counter(*registry, *counter) && registered_collectors(*registry) == set![
            metric_id(family_name(*first)),
            metric_id(family_name(*second)),
            metric_id(family_name(*third)),
            metric_id(counter_name(*counter)),
        ] && adds_nothing(*registry) ==> families@ == gathered_alone(
            first@,
            second@,
            third@,
            counter@,
        ) && forall|i: int|
            0 <= i < families@.len() ==> family_filled(#[trigger] families@[i]) && !family_untyped(
                families@[i],
            ),
{
    registry.gather()
}

/// `get_field_type` of a family: tells whether its metrics are untyped.
#[verifier::external_body]
pub(crate) fn is_untyped(family: &MetricFamily) -> (untyped: bool)
    ensures
        untyped == family_untyped(*family),
{
    matches!(family.get_field_type(), prometheus::proto::MetricType::UNTYPED)
}

/// `prometheus::TextEncoder::encode`, which fails if and only if a family has no
/// samples or no name, and panics on untyped metrics. What it writes is text, and
/// a function of the families. The error is handed out as it puts itself; of its
/// words nothing is stated, as they show all that the family holds, also what
/// stands in a hash map.
#[verifier::external_body]
pub(crate) fn encode_text(families: &Vec<MetricFamily>) -> (encoded: Result<
    Vec<u8>,
    String,
>)
    requires
        forall|i: int| 0 <= i < families@.len() ==> !family_untyped(#[trigger] families@[i]),
    ensures
        match encoded {
            Ok(bytes) => text_encoding(families@) == Some(bytes@) && valid_utf8(bytes@),
            Err(_) => text_encoding(families@) is None,
        },
        (encoded is Ok) == forall|i: int|
            0 <= i < families@.len() ==> family_filled(#[trigger] families@[i]),
{
    let mut buffer: Vec<u8> = Vec::new();
    match TextEncoder::new().encode(families, &mut buffer) {
        Ok(()) => Ok(buffer),
        Err(error) => Err(error.to_string()),
    }
}

/// `prometheus::TextEncoder::format_type`: the media type of the text format.
#[verifier::external_body]
pub(crate) fn text_format() -> (media_type: String)
    ensures
        media_type@ == "text/plain; version=0.0.4"@,
{
    TextEncoder::new().format_type().to_string()
}

} // verus!
