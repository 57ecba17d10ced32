use crate::source::Source;
use vstd::prelude::*;

verus! {

/// Anything that can say what metric it stands for. A channel consults it
/// once, when it is created, and keeps a copy of what it said.
pub trait Statistic {
    /// The name, unique within a registry.
    fn name(&self) -> &str;

    fn description(&self) -> Option<&str>;

    /// The kind of measurement.
    fn source(&self) -> Source;

    fn unit(&self) -> Option<&str>;
}

/// What identifies and describes a metric.
pub struct StatisticView {
    pub name: Seq<char>,
    pub description: Option<Seq<char>>,
    pub source: Source,
    pub unit: Option<Seq<char>>,
}

/// The characters of an optional string.
pub open spec fn text_of(text: Option<&str>) -> Option<Seq<char>> {
    match text {
        Some(t) => Some(t@),
        None => None,
    }
}

/// An owned copy of a metric's descriptor, independent of the lifetime of
/// whatever declared the metric.
#[derive(Clone)]
pub struct ChannelStatistic {
    name: String,
    description: Option<String>,
    source: Source,
    unit: Option<String>,
}

impl View for ChannelStatistic {
    type V = StatisticView;

    closed spec fn view(&self) -> StatisticView {
        StatisticView {
            name: self.name@,
            description: match self.description {
                Some(text) => Some(text@),
                None => None,
            },
            source: self.source,
            unit: match self.unit {
                Some(text) => Some(text@),
                None => None,
            },
        }
    }
}

impl ChannelStatistic {
    /// Asks `statistic` for its name, description, kind and unit, once
    /// each, and keeps what it answers.
    pub fn new<S: Statistic + ?Sized>(statistic: &S) -> (copy: ChannelStatistic)
        ensures
            describes(statistic, copy@),
    {
        let name = statistic.name();
        let description = statistic.description();
        let source = statistic.source();
        let unit = statistic.unit();
        ChannelStatistic::from_parts(name, description, source, unit)
    }

    /// The descriptor with the given name, description, kind and unit.
    pub fn from_parts(
        name: &str,
        description: Option<&str>,
        source: Source,
        unit: Option<&str>,
    ) -> (copy: ChannelStatistic)
        ensures
            copy@ == (StatisticView {
                name: name@,
                description: text_of(description),
                source,
                unit: text_of(unit),
            }),
    {
        let description = match description {
            Some(text) => Some(text.to_string()),
            None => None,
        };
        let unit = match unit {
            Some(text) => Some(text.to_string()),
            None => None,
        };
        ChannelStatistic { name: name.to_string(), description, source, unit }
    }

    /// Whether two descriptors carry the same name.
    pub fn same_name(&self, other: &ChannelStatistic) -> (same: bool)
        ensures
            same == (self@.name == other@.name),
    {
        self.name == other.name
    }
}

impl Statistic for ChannelStatistic {
    fn name(&self) -> (name: &str)
        ensures
            name@ == self@.name,
    {
        self.name.as_str()
    }

    fn description(&self) -> (description: Option<&str>)
        ensures
            text_of(description) == self@.description,
    {
        match &self.description {
            Some(text) => Some(text.as_str()),
            None => None,
        }
    }

    fn source(&self) -> (source: Source)
        ensures
            source == self@.source,
    {
        self.source
    }

    fn unit(&self) -> (unit: Option<&str>)
        ensures
            text_of(unit) == self@.unit,
    {
        match &self.unit {
            Some(text) => Some(text.as_str()),
            None => None,
        }
    }
}

/// Whether `view` holds a name, a description, a kind and a unit that
/// `statistic` gives when it is asked for them.
pub open spec fn describes<S: Statistic + ?Sized>(statistic: &S, view: StatisticView) -> bool {
    exists|name: &str, description: Option<&str>, source: Source, unit: Option<&str>|
        {
            &&& #[trigger] call_ensures(S::name, (statistic,), name)
            &&& #[trigger] call_ensures(S::description, (statistic,), description)
            &&& #[trigger] call_ensures(S::source, (statistic,), source)
            &&& #[trigger] call_ensures(S::unit, (statistic,), unit)
            &&& view == StatisticView {
                name: name@,
                description: text_of(description),
                source,
                unit: text_of(unit),
            }
        }
}

/// A copy gives what it holds, so it describes itself and nothing else: the
/// copy of a copy is the same descriptor.
pub proof fn copy_describes_itself(copy: &ChannelStatistic, view: StatisticView)
    requires
        describes(copy, view),
    ensures
        view == copy@,
{
}

} // verus!
