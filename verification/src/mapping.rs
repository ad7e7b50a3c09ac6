//! Aesthetic mappings: which data column feeds which visual channel.
use vstd::prelude::*;

verus! {

broadcast use vstd::string::to_string_from_display_ensures_for_str;

/// A visual-channel expression: a reference to a data column by name.
#[derive(Debug)]
pub enum AestheticExpr {
    /// The column with this name.
    Column(String),
}

impl AestheticExpr {
    /// The referenced column name.
    pub open spec fn name(&self) -> Seq<char> {
        match self {
            AestheticExpr::Column(n) => n@,
        }
    }

    /// A reference to column `name`.
    pub fn column(name: &str) -> (e: AestheticExpr)
        ensures
            e.name() == name@,
    {
        AestheticExpr::Column(name.to_string())
    }

    /// The referenced column name.
    pub fn column_name(&self) -> (s: &str)
        ensures
            s@ == self.name(),
    {
        match self {
            AestheticExpr::Column(n) => n.as_str(),
        }
    }
}

impl Clone for AestheticExpr {
    fn clone(&self) -> (e: Self)
        ensures
            e.name() == self.name(),
    {
        match self {
            AestheticExpr::Column(n) => AestheticExpr::Column(n.clone()),
        }
    }
}

/// The column name a channel refers to, if it is mapped.
pub open spec fn slot(o: Option<AestheticExpr>) -> Option<Seq<char>> {
    match o {
        Some(e) => Some(e.name()),
        None => None,
    }
}

/// The ten channels of a mapping, as column names.
pub type MappingView = (
    Option<Seq<char>>,
    Option<Seq<char>>,
    Option<Seq<char>>,
    Option<Seq<char>>,
    Option<Seq<char>>,
    Option<Seq<char>>,
    Option<Seq<char>>,
    Option<Seq<char>>,
    Option<Seq<char>>,
    Option<Seq<char>>,
);

/// Data-to-channel mapping.
#[derive(Debug)]
pub struct Mapping {
    /// x channel.
    pub x: Option<AestheticExpr>,
    /// y channel.
    pub y: Option<AestheticExpr>,
    /// z channel.
    pub z: Option<AestheticExpr>,
    /// Stroke colour.
    pub color: Option<AestheticExpr>,
    /// Fill colour.
    pub fill: Option<AestheticExpr>,
    /// Size.
    pub size: Option<AestheticExpr>,
    /// Shape.
    pub shape: Option<AestheticExpr>,
    /// Opacity.
    pub alpha: Option<AestheticExpr>,
    /// Grouping.
    pub group: Option<AestheticExpr>,
    /// Label.
    pub label: Option<AestheticExpr>,
}

impl View for Mapping {
    type V = MappingView;

    open spec fn view(&self) -> MappingView {
        (
            slot(self.x),
            slot(self.y),
            slot(self.z),
            slot(self.color),
            slot(self.fill),
            slot(self.size),
            slot(self.shape),
            slot(self.alpha),
            slot(self.group),
            slot(self.label),
        )
    }
}

/// A channel of the overlay where it is mapped, else the base channel.
pub open spec fn prefer(overlay: Option<Seq<char>>, base: Option<Seq<char>>) -> Option<Seq<char>> {
    if overlay is Some {
        overlay
    } else {
        base
    }
}

/// The mapping that `base.merge(overlay)` gives: each channel from the overlay where it is mapped.
pub open spec fn merged(base: MappingView, overlay: MappingView) -> MappingView {
    (
        prefer(overlay.0, base.0),
        prefer(overlay.1, base.1),
        prefer(overlay.2, base.2),
        prefer(overlay.3, base.3),
        prefer(overlay.4, base.4),
        prefer(overlay.5, base.5),
        prefer(overlay.6, base.6),
        prefer(overlay.7, base.7),
        prefer(overlay.8, base.8),
        prefer(overlay.9, base.9),
    )
}

/// The mapping with no channel mapped.
pub open spec fn unmapped() -> MappingView {
    (None, None, None, None, None, None, None, None, None, None)
}

fn pick(overlay: &Option<AestheticExpr>, base: &Option<AestheticExpr>) -> (r: Option<AestheticExpr>)
    ensures
        slot(r) == prefer(slot(*overlay), slot(*base)),
{
    match overlay {
        Some(e) => Some(e.clone()),
        None => match base {
            Some(e) => Some(e.clone()),
            None => None,
        },
    }
}

impl Mapping {
    /// The mapping with no channel mapped.
    fn empty() -> (m: Mapping)
        ensures
            m@ == unmapped(),
    {
        Mapping {
            x: None,
            y: None,
            z: None,
            color: None,
            fill: None,
            size: None,
            shape: None,
            alpha: None,
            group: None,
            label: None,
        }
    }

    /// Maps x and y to the columns `x` and `y`, nothing else.
    pub fn xy(x: &str, y: &str) -> (m: Mapping)
        ensures
            m@ == (Some(x@), Some(y@), None::<Seq<char>>, None::<Seq<char>>, None::<Seq<char>>, None::<Seq<char>>, None::<Seq<char>>, None::<Seq<char>>, None::<Seq<char>>, None::<Seq<char>>),
    {
        Mapping {
            x: Some(AestheticExpr::column(x)),
            y: Some(AestheticExpr::column(y)),
            z: None,
            color: None,
            fill: None,
            size: None,
            shape: None,
            alpha: None,
            group: None,
            label: None,
        }
    }

    /// Merges: each channel mapped in `overlay` replaces the one here.
    pub fn merge(&self, overlay: &Mapping) -> (m: Mapping)
        ensures
            m@ == merged(self@, overlay@),
    {
        Mapping {
            x: pick(&overlay.x, &self.x),
            y: pick(&overlay.y, &self.y),
            z: pick(&overlay.z, &self.z),
            color: pick(&overlay.color, &self.color),
            fill: pick(&overlay.fill, &self.fill),
            size: pick(&overlay.size, &self.size),
            shape: pick(&overlay.shape, &self.shape),
            alpha: pick(&overlay.alpha, &self.alpha),
            group: pick(&overlay.group, &self.group),
            label: pick(&overlay.label, &self.label),
        }
    }
}

impl Default for Mapping {
    fn default() -> (m: Mapping)
        ensures
            m@ == unmapped(),
    {
        Mapping::empty()
    }
}

impl Clone for Mapping {
    fn clone(&self) -> (m: Self)
        ensures
            m@ == self@,
    {
        self.merge(&Mapping::empty())
    }
}

/// Merging onto the empty mapping, or merging the empty mapping on, changes nothing.
pub proof fn merge_unmapped_identity(m: MappingView)
    ensures
        merged(unmapped(), m) == m,
        merged(m, unmapped()) == m,
{
}

/// Merging is associative: layering `b` then `c` on `a` is layering `b` merged with `c` on `a`.
pub proof fn merge_associative(a: MappingView, b: MappingView, c: MappingView)
    ensures
        merged(merged(a, b), c) == merged(a, merged(b, c)),
{
}

/// Merging a mapping onto itself changes nothing.
pub proof fn merge_idempotent(m: MappingView)
    ensures
        merged(m, m) == m,
{
}

/// The overlay wins: every channel the overlay maps is the merged channel,
/// and every channel it leaves unmapped is the base's.
pub proof fn merge_overlay_wins(base: MappingView, overlay: MappingView)
    ensures
        overlay.0 is Some ==> merged(base, overlay).0 == overlay.0,
        overlay.0 is None ==> merged(base, overlay).0 == base.0,
        overlay.1 is Some ==> merged(base, overlay).1 == overlay.1,
        overlay.1 is None ==> merged(base, overlay).1 == base.1,
        overlay.2 is Some ==> merged(base, overlay).2 == overlay.2,
        overlay.2 is None ==> merged(base, overlay).2 == base.2,
        overlay.3 is Some ==> merged(base, overlay).3 == overlay.3,
        overlay.3 is None ==> merged(base, overlay).3 == base.3,
        overlay.4 is Some ==> merged(base, overlay).4 == overlay.4,
        overlay.4 is None ==> merged(base, overlay).4 == base.4,
        overlay.5 is Some ==> merged(base, overlay).5 == overlay.5,
        overlay.5 is None ==> merged(base, overlay).5 == base.5,
        overlay.6 is Some ==> merged(base, overlay).6 == overlay.6,
        overlay.6 is None ==> merged(base, overlay).6 == base.6,
        overlay.7 is Some ==> merged(base, overlay).7 == overlay.7,
        overlay.7 is None ==> merged(base, overlay).7 == base.7,
        overlay.8 is Some ==> merged(base, overlay).8 == overlay.8,
        overlay.8 is None ==> merged(base, overlay).8 == base.8,
        overlay.9 is Some ==> merged(base, overlay).9 == overlay.9,
        overlay.9 is None ==> merged(base, overlay).9 == base.9,
{
}

} // verus!
