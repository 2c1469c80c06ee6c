//! Triply periodic minimal surface (TPMS) families, their formula library,
//! and the build morphologies.
use vstd::prelude::*;
use crate::text::str_eq;

verus! {

/// How an implicit field is turned into a solid or sheet.
#[derive(Clone, Copy, PartialEq, Eq, Debug)]
pub enum Morphology {
    MinimalSurface,
    Shell,
    Skeletal,
}

/// Spatial gradient-field mode.  `Constant` is the field that takes its base
/// value everywhere (no spatial variation).
#[derive(Clone, Copy, Debug, PartialEq)]
pub enum GradientMode {
    Constant,
    Linear,
    Sigmoid,
    BoundaryDecay,
}

/// The built-in triply periodic minimal surface families.
#[derive(Clone, Copy, Debug, PartialEq, Eq)]
pub enum TpmsFamily {
    Gyroid,
    SchwarzP,
    SchwarzD,
    SchoenIwp,
    Neovius,
    FRD,
    Lidinoid,
    SplitP,
    FischerKochSY,
    FischerKochSCP,
    FischerKochSC,
}

/// Internal name of a family, as used by the formula library.
pub open spec fn spec_family_name(f: TpmsFamily) -> Seq<char> {
    match f {
        TpmsFamily::Gyroid => "gyroid"@,
        TpmsFamily::SchwarzP => "schwarz-p"@,
        TpmsFamily::SchwarzD => "schwarz-d"@,
        TpmsFamily::SchoenIwp => "schoen-iwp"@,
        TpmsFamily::Neovius => "neovius"@,
        TpmsFamily::FRD => "f-rd"@,
        TpmsFamily::Lidinoid => "lidinoid"@,
        TpmsFamily::SplitP => "split-p"@,
        TpmsFamily::FischerKochSY => "fischer-koch-s"@,
        TpmsFamily::FischerKochSCP => "fischer-koch-cp"@,
        TpmsFamily::FischerKochSC => "fischer-koch-y"@,
    }
}

/// Display label of a family.
pub open spec fn spec_family_label(f: TpmsFamily) -> Seq<char> {
    match f {
        TpmsFamily::Gyroid => "Gyroid"@,
        TpmsFamily::SchwarzP => "Schwarz P"@,
        TpmsFamily::SchwarzD => "Schwarz D"@,
        TpmsFamily::SchoenIwp => "Schoen IWP"@,
        TpmsFamily::Neovius => "Neovius"@,
        TpmsFamily::FRD => "F-RD"@,
        TpmsFamily::Lidinoid => "Lidinoid"@,
        TpmsFamily::SplitP => "Split-P"@,
        TpmsFamily::FischerKochSY => "Fischer-Koch S"@,
        TpmsFamily::FischerKochSCP => "Fischer-Koch CP"@,
        TpmsFamily::FischerKochSC => "Fischer-Koch Y"@,
    }
}

/// The family whose internal name is `name`, if any.
pub open spec fn spec_family_from_name(name: Seq<char>) -> Option<TpmsFamily> {
    if name == "gyroid"@ {
        Some(TpmsFamily::Gyroid)
    } else if name == "schwarz-p"@ {
        Some(TpmsFamily::SchwarzP)
    } else if name == "schwarz-d"@ {
        Some(TpmsFamily::SchwarzD)
    } else if name == "schoen-iwp"@ {
        Some(TpmsFamily::SchoenIwp)
    } else if name == "neovius"@ {
        Some(TpmsFamily::Neovius)
    } else if name == "f-rd"@ {
        Some(TpmsFamily::FRD)
    } else if name == "lidinoid"@ {
        Some(TpmsFamily::Lidinoid)
    } else if name == "split-p"@ {
        Some(TpmsFamily::SplitP)
    } else if name == "fischer-koch-s"@ {
        Some(TpmsFamily::FischerKochSY)
    } else if name == "fischer-koch-cp"@ {
        Some(TpmsFamily::FischerKochSCP)
    } else if name == "fischer-koch-y"@ {
        Some(TpmsFamily::FischerKochSC)
    } else {
        None
    }
}

/// The families in their canonical listing order.
pub open spec fn spec_all_families() -> Seq<TpmsFamily> {
    seq![
        TpmsFamily::Gyroid,
        TpmsFamily::SchwarzP,
        TpmsFamily::SchwarzD,
        TpmsFamily::SchoenIwp,
        TpmsFamily::Neovius,
        TpmsFamily::FRD,
        TpmsFamily::Lidinoid,
        TpmsFamily::SplitP,
        TpmsFamily::FischerKochSY,
        TpmsFamily::FischerKochSCP,
        TpmsFamily::FischerKochSC,
    ]
}

/// Human-readable implicit equation for a family name; `"(unknown)"` for any
/// other name.
pub open spec fn spec_tpms_formula(name: Seq<char>) -> Seq<char> {
    if name == "gyroid"@ {
        "sin(kx)cos(ky) + sin(ky)cos(kz) + sin(kz)cos(kx) = 0"@
    } else if name == "schwarz-p"@ {
        "cos(kx) + cos(ky) + cos(kz) = 0"@
    } else if name == "schwarz-d"@ {
        "sin(kx)sin(ky)sin(kz) + ... = 0"@
    } else if name == "schoen-iwp"@ {
        "2[cos(kx)cos(ky)+...] - [cos(2kx)+...] = 0"@
    } else if name == "neovius"@ {
        "3[cos(kx)+...] + 4cos(kx)cos(ky)cos(kz) = 0"@
    } else if name == "f-rd"@ {
        "4cos(kx)cos(ky)cos(kz) - [...] = 0"@
    } else if name == "lidinoid"@ {
        "(1/2)[...] - (1/2)[...] + 0.15 = 0"@
    } else if name == "split-p"@ {
        "1.1[...] - 0.2[...] - 0.4[...] = 0"@
    } else if name == "fischer-koch-s"@ {
        "cos(2kx)sin(ky)cos(kz) + ... = 0"@
    } else if name == "fischer-koch-y"@ {
        "2cos(kx)cos(ky)cos(kz) + ... = 0"@
    } else if name == "fischer-koch-cp"@ {
        "cos(kx)+cos(ky)+cos(kz) + 4cos(kx)cos(ky)cos(kz) = 0"@
    } else {
        "(unknown)"@
    }
}

impl TpmsFamily {
    /// Internal name used by the formula library.
    pub fn name(&self) -> (r: &'static str)
        ensures
            r@ == spec_family_name(*self),
    {
        match self {
            TpmsFamily::Gyroid => "gyroid",
            TpmsFamily::SchwarzP => "schwarz-p",
            TpmsFamily::SchwarzD => "schwarz-d",
            TpmsFamily::SchoenIwp => "schoen-iwp",
            TpmsFamily::Neovius => "neovius",
            TpmsFamily::FRD => "f-rd",
            TpmsFamily::Lidinoid => "lidinoid",
            TpmsFamily::SplitP => "split-p",
            TpmsFamily::FischerKochSY => "fischer-koch-s",
            TpmsFamily::FischerKochSCP => "fischer-koch-cp",
            TpmsFamily::FischerKochSC => "fischer-koch-y",
        }
    }

    /// Display label for UI.
    pub fn label(&self) -> (r: &'static str)
        ensures
            r@ == spec_family_label(*self),
    {
        match self {
            TpmsFamily::Gyroid => "Gyroid",
            TpmsFamily::SchwarzP => "Schwarz P",
            TpmsFamily::SchwarzD => "Schwarz D",
            TpmsFamily::SchoenIwp => "Schoen IWP",
            TpmsFamily::Neovius => "Neovius",
            TpmsFamily::FRD => "F-RD",
            TpmsFamily::Lidinoid => "Lidinoid",
            TpmsFamily::SplitP => "Split-P",
            TpmsFamily::FischerKochSY => "Fischer-Koch S",
            TpmsFamily::FischerKochSCP => "Fischer-Koch CP",
            TpmsFamily::FischerKochSC => "Fischer-Koch Y",
        }
    }

    /// Parse from internal name string.
    pub fn from_name(name: &str) -> (r: Option<TpmsFamily>)
        ensures
            r == spec_family_from_name(name@),
    {
        if str_eq(name, "gyroid") {
            Some(TpmsFamily::Gyroid)
        } else if str_eq(name, "schwarz-p") {
            Some(TpmsFamily::SchwarzP)
        } else if str_eq(name, "schwarz-d") {
            Some(TpmsFamily::SchwarzD)
        } else if str_eq(name, "schoen-iwp") {
            Some(TpmsFamily::SchoenIwp)
        } else if str_eq(name, "neovius") {
            Some(TpmsFamily::Neovius)
        } else if str_eq(name, "f-rd") {
            Some(TpmsFamily::FRD)
        } else if str_eq(name, "lidinoid") {
            Some(TpmsFamily::Lidinoid)
        } else if str_eq(name, "split-p") {
            Some(TpmsFamily::SplitP)
        } else if str_eq(name, "fischer-koch-s") {
            Some(TpmsFamily::FischerKochSY)
        } else if str_eq(name, "fischer-koch-cp") {
            Some(TpmsFamily::FischerKochSCP)
        } else if str_eq(name, "fischer-koch-y") {
            Some(TpmsFamily::FischerKochSC)
        } else {
            None
        }
    }

    /// All built-in TPMS families.
    pub fn all() -> (r: Vec<TpmsFamily>)
        ensures
            r@ == spec_all_families(),
    {
        vec![
            TpmsFamily::Gyroid,
            TpmsFamily::SchwarzP,
            TpmsFamily::SchwarzD,
            TpmsFamily::SchoenIwp,
            TpmsFamily::Neovius,
            TpmsFamily::FRD,
            TpmsFamily::Lidinoid,
            TpmsFamily::SplitP,
            TpmsFamily::FischerKochSY,
            TpmsFamily::FischerKochSCP,
            TpmsFamily::FischerKochSC,
        ]
    }
}

/// The family whose implicit function is built for a surface name: the
/// family of that name, and the gyroid for any other name.
pub fn formula_family(name: &str) -> (f: TpmsFamily)
    ensures
        f == (match spec_family_from_name(name@) {
            Some(g) => g,
            None => TpmsFamily::Gyroid,
        }),
{
    match TpmsFamily::from_name(name) {
        Some(f) => f,
        None => TpmsFamily::Gyroid,
    }
}

impl Morphology {
    /// Whether the morphology fills a solid (the field is then bounded by
    /// the domain box); only `Skeletal` does.
    pub fn is_solid(self) -> (r: bool)
        ensures
            r == (self == Morphology::Skeletal),
    {
        match self {
            Morphology::Skeletal => true,
            _ => false,
        }
    }
}

/// Human-readable formula description for a surface name.
pub fn tpms_formula(name: &str) -> (r: &'static str)
    ensures
        r@ == spec_tpms_formula(name@),
{
    if str_eq(name, "gyroid") {
        "sin(kx)cos(ky) + sin(ky)cos(kz) + sin(kz)cos(kx) = 0"
    } else if str_eq(name, "schwarz-p") {
        "cos(kx) + cos(ky) + cos(kz) = 0"
    } else if str_eq(name, "schwarz-d") {
        "sin(kx)sin(ky)sin(kz) + ... = 0"
    } else if str_eq(name, "schoen-iwp") {
        "2[cos(kx)cos(ky)+...] - [cos(2kx)+...] = 0"
    } else if str_eq(name, "neovius") {
        "3[cos(kx)+...] + 4cos(kx)cos(ky)cos(kz) = 0"
    } else if str_eq(name, "f-rd") {
        "4cos(kx)cos(ky)cos(kz) - [...] = 0"
    } else if str_eq(name, "lidinoid") {
        "(1/2)[...] - (1/2)[...] + 0.15 = 0"
    } else if str_eq(name, "split-p") {
        "1.1[...] - 0.2[...] - 0.4[...] = 0"
    } else if str_eq(name, "fischer-koch-s") {
        "cos(2kx)sin(ky)cos(kz) + ... = 0"
    } else if str_eq(name, "fischer-koch-y") {
        "2cos(kx)cos(ky)cos(kz) + ... = 0"
    } else if str_eq(name, "fischer-koch-cp") {
        "cos(kx)+cos(ky)+cos(kz) + 4cos(kx)cos(ky)cos(kz) = 0"
    } else {
        "(unknown)"
    }
}


/// Parsing a family's own name gives the family back.
pub proof fn lemma_family_name_roundtrip(f: TpmsFamily)
    ensures
        spec_family_from_name(spec_family_name(f)) == Some(f),
{
    reveal_strlit("gyroid");
    reveal_strlit("schwarz-p");
    reveal_strlit("schwarz-d");
    reveal_strlit("schoen-iwp");
    reveal_strlit("neovius");
    reveal_strlit("f-rd");
    reveal_strlit("lidinoid");
    reveal_strlit("split-p");
    reveal_strlit("fischer-koch-s");
    reveal_strlit("fischer-koch-cp");
    reveal_strlit("fischer-koch-y");
    assert(("gyroid"@).len() == 6);
    assert(("schwarz-p"@).len() == 9);
    assert(("schwarz-d"@).len() == 9);
    assert(("schoen-iwp"@).len() == 10);
    assert(("neovius"@).len() == 7);
    assert(("f-rd"@).len() == 4);
    assert(("lidinoid"@).len() == 8);
    assert(("split-p"@).len() == 7);
    assert(("fischer-koch-s"@).len() == 14);
    assert(("fischer-koch-cp"@).len() == 15);
    assert(("fischer-koch-y"@).len() == 14);
    assert(("schwarz-p"@)[8] != ("schwarz-d"@)[8]);
    assert(("neovius"@)[0] != ("split-p"@)[0]);
    assert(("fischer-koch-s"@)[13] != ("fischer-koch-y"@)[13]);
}

/// A label character as it appears in a name: letters in lower case, a
/// space as a hyphen, anything else as it is.
pub open spec fn name_char(c: char) -> char {
    if 'A' <= c && c <= 'Z' {
        ((c as u32) + 32) as char
    } else if c == ' ' {
        '-'
    } else {
        c
    }
}

/// A label written the way names are written.
pub open spec fn name_form(label: Seq<char>) -> Seq<char> {
    label.map_values(|c: char| name_char(c))
}

/// Every family's label is a display form of its own name: lowering its
/// letters and writing its spaces as hyphens gives the name back, and it
/// starts with a capital letter.  So no family shows another family's
/// label.
pub proof fn lemma_family_label_names_family(f: TpmsFamily)
    ensures
        name_form(spec_family_label(f)) == spec_family_name(f),
        spec_family_label(f).len() > 0,
        'A' <= spec_family_label(f)[0] <= 'Z',
{
    reveal_strlit("gyroid");
    reveal_strlit("schwarz-p");
    reveal_strlit("schwarz-d");
    reveal_strlit("schoen-iwp");
    reveal_strlit("neovius");
    reveal_strlit("f-rd");
    reveal_strlit("lidinoid");
    reveal_strlit("split-p");
    reveal_strlit("fischer-koch-s");
    reveal_strlit("fischer-koch-cp");
    reveal_strlit("fischer-koch-y");
    reveal_strlit("Gyroid");
    reveal_strlit("Schwarz P");
    reveal_strlit("Schwarz D");
    reveal_strlit("Schoen IWP");
    reveal_strlit("Neovius");
    reveal_strlit("F-RD");
    reveal_strlit("Lidinoid");
    reveal_strlit("Split-P");
    reveal_strlit("Fischer-Koch S");
    reveal_strlit("Fischer-Koch CP");
    reveal_strlit("Fischer-Koch Y");
    let l = spec_family_label(f);
    let n = spec_family_name(f);
    assert(name_form(l) =~= n);
}

/// Distinct families have distinct names.
pub proof fn lemma_family_names_distinct(f: TpmsFamily, g: TpmsFamily)
    requires
        f != g,
    ensures
        spec_family_name(f) != spec_family_name(g),
{
    lemma_family_name_roundtrip(f);
    lemma_family_name_roundtrip(g);
}

/// Every family name resolves to a real formula (never `"(unknown)"`), and
/// every formula is an implicit equation ending in `= 0`.
pub proof fn lemma_family_formula_known(f: TpmsFamily)
    ensures
        spec_tpms_formula(spec_family_name(f)) != "(unknown)"@,
        spec_tpms_formula(spec_family_name(f)).len() >= 3,
        spec_tpms_formula(spec_family_name(f)).subrange(
            spec_tpms_formula(spec_family_name(f)).len() - 3,
            spec_tpms_formula(spec_family_name(f)).len() as int,
        ) == "= 0"@,
{
    reveal_strlit("gyroid");
    reveal_strlit("schwarz-p");
    reveal_strlit("schwarz-d");
    reveal_strlit("schoen-iwp");
    reveal_strlit("neovius");
    reveal_strlit("f-rd");
    reveal_strlit("lidinoid");
    reveal_strlit("split-p");
    reveal_strlit("fischer-koch-s");
    reveal_strlit("fischer-koch-cp");
    reveal_strlit("fischer-koch-y");
    reveal_strlit("(unknown)");
    reveal_strlit("= 0");
    reveal_strlit("sin(kx)cos(ky) + sin(ky)cos(kz) + sin(kz)cos(kx) = 0");
    reveal_strlit("cos(kx) + cos(ky) + cos(kz) = 0");
    reveal_strlit("sin(kx)sin(ky)sin(kz) + ... = 0");
    reveal_strlit("2[cos(kx)cos(ky)+...] - [cos(2kx)+...] = 0");
    reveal_strlit("3[cos(kx)+...] + 4cos(kx)cos(ky)cos(kz) = 0");
    reveal_strlit("4cos(kx)cos(ky)cos(kz) - [...] = 0");
    reveal_strlit("(1/2)[...] - (1/2)[...] + 0.15 = 0");
    reveal_strlit("1.1[...] - 0.2[...] - 0.4[...] = 0");
    reveal_strlit("cos(2kx)sin(ky)cos(kz) + ... = 0");
    reveal_strlit("2cos(kx)cos(ky)cos(kz) + ... = 0");
    reveal_strlit("cos(kx)+cos(ky)+cos(kz) + 4cos(kx)cos(ky)cos(kz) = 0");
    assert(spec_tpms_formula(spec_family_name(f)).subrange(
        spec_tpms_formula(spec_family_name(f)).len() - 3,
        spec_tpms_formula(spec_family_name(f)).len() as int,
    ) =~= "= 0"@);
}

/// The formula description of a family.
pub open spec fn spec_family_formula(f: TpmsFamily) -> Seq<char> {
    match f {
        TpmsFamily::Gyroid => "sin(kx)cos(ky) + sin(ky)cos(kz) + sin(kz)cos(kx) = 0"@,
        TpmsFamily::SchwarzP => "cos(kx) + cos(ky) + cos(kz) = 0"@,
        TpmsFamily::SchwarzD => "sin(kx)sin(ky)sin(kz) + ... = 0"@,
        TpmsFamily::SchoenIwp => "2[cos(kx)cos(ky)+...] - [cos(2kx)+...] = 0"@,
        TpmsFamily::Neovius => "3[cos(kx)+...] + 4cos(kx)cos(ky)cos(kz) = 0"@,
        TpmsFamily::FRD => "4cos(kx)cos(ky)cos(kz) - [...] = 0"@,
        TpmsFamily::Lidinoid => "(1/2)[...] - (1/2)[...] + 0.15 = 0"@,
        TpmsFamily::SplitP => "1.1[...] - 0.2[...] - 0.4[...] = 0"@,
        TpmsFamily::FischerKochSY => "cos(2kx)sin(ky)cos(kz) + ... = 0"@,
        TpmsFamily::FischerKochSCP => "cos(kx)+cos(ky)+cos(kz) + 4cos(kx)cos(ky)cos(kz) = 0"@,
        TpmsFamily::FischerKochSC => "2cos(kx)cos(ky)cos(kz) + ... = 0"@,
    }
}

/// Looking up a family's formula by its name gives that family's formula.
pub proof fn lemma_family_formula_lookup(f: TpmsFamily)
    ensures
        spec_tpms_formula(spec_family_name(f)) == spec_family_formula(f),
{
    reveal_strlit("gyroid");
    reveal_strlit("schwarz-p");
    reveal_strlit("schwarz-d");
    reveal_strlit("schoen-iwp");
    reveal_strlit("neovius");
    reveal_strlit("f-rd");
    reveal_strlit("lidinoid");
    reveal_strlit("split-p");
    reveal_strlit("fischer-koch-s");
    reveal_strlit("fischer-koch-cp");
    reveal_strlit("fischer-koch-y");
    assert(("gyroid"@).len() == 6);
    assert(("schwarz-p"@).len() == 9);
    assert(("schwarz-d"@).len() == 9);
    assert(("schoen-iwp"@).len() == 10);
    assert(("neovius"@).len() == 7);
    assert(("f-rd"@).len() == 4);
    assert(("lidinoid"@).len() == 8);
    assert(("split-p"@).len() == 7);
    assert(("fischer-koch-s"@).len() == 14);
    assert(("fischer-koch-cp"@).len() == 15);
    assert(("fischer-koch-y"@).len() == 14);
    assert(("schwarz-p"@)[8] != ("schwarz-d"@)[8]);
    assert(("neovius"@)[0] != ("split-p"@)[0]);
    assert(("fischer-koch-s"@)[13] != ("fischer-koch-y"@)[13]);
}

/// Distinct families have distinct formula descriptions.
pub proof fn lemma_family_formulas_distinct(f: TpmsFamily, g: TpmsFamily)
    requires
        f != g,
    ensures
        spec_tpms_formula(spec_family_name(f)) != spec_tpms_formula(spec_family_name(g)),
{
    lemma_family_formula_lookup(f);
    lemma_family_formula_lookup(g);
    reveal_strlit("sin(kx)cos(ky) + sin(ky)cos(kz) + sin(kz)cos(kx) = 0");
    assert(("sin(kx)cos(ky) + sin(ky)cos(kz) + sin(kz)cos(kx) = 0"@).len() == 52);
    reveal_strlit("cos(kx) + cos(ky) + cos(kz) = 0");
    assert(("cos(kx) + cos(ky) + cos(kz) = 0"@).len() == 31);
    reveal_strlit("sin(kx)sin(ky)sin(kz) + ... = 0");
    assert(("sin(kx)sin(ky)sin(kz) + ... = 0"@).len() == 31);
    reveal_strlit("2[cos(kx)cos(ky)+...] - [cos(2kx)+...] = 0");
    assert(("2[cos(kx)cos(ky)+...] - [cos(2kx)+...] = 0"@).len() == 42);
    reveal_strlit("3[cos(kx)+...] + 4cos(kx)cos(ky)cos(kz) = 0");
    assert(("3[cos(kx)+...] + 4cos(kx)cos(ky)cos(kz) = 0"@).len() == 43);
    reveal_strlit("4cos(kx)cos(ky)cos(kz) - [...] = 0");
    assert(("4cos(kx)cos(ky)cos(kz) - [...] = 0"@).len() == 34);
    reveal_strlit("(1/2)[...] - (1/2)[...] + 0.15 = 0");
    assert(("(1/2)[...] - (1/2)[...] + 0.15 = 0"@).len() == 34);
    reveal_strlit("1.1[...] - 0.2[...] - 0.4[...] = 0");
    assert(("1.1[...] - 0.2[...] - 0.4[...] = 0"@).len() == 34);
    reveal_strlit("cos(2kx)sin(ky)cos(kz) + ... = 0");
    assert(("cos(2kx)sin(ky)cos(kz) + ... = 0"@).len() == 32);
    reveal_strlit("cos(kx)+cos(ky)+cos(kz) + 4cos(kx)cos(ky)cos(kz) = 0");
    assert(("cos(kx)+cos(ky)+cos(kz) + 4cos(kx)cos(ky)cos(kz) = 0"@).len() == 52);
    reveal_strlit("2cos(kx)cos(ky)cos(kz) + ... = 0");
    assert(("2cos(kx)cos(ky)cos(kz) + ... = 0"@).len() == 32);
    assert(("sin(kx)cos(ky) + sin(ky)cos(kz) + sin(kz)cos(kx) = 0"@)[0] != ("cos(kx)+cos(ky)+cos(kz) + 4cos(kx)cos(ky)cos(kz) = 0"@)[0]);
    assert(("cos(kx) + cos(ky) + cos(kz) = 0"@)[0] != ("sin(kx)sin(ky)sin(kz) + ... = 0"@)[0]);
    assert(("4cos(kx)cos(ky)cos(kz) - [...] = 0"@)[0] != ("(1/2)[...] - (1/2)[...] + 0.15 = 0"@)[0]);
    assert(("4cos(kx)cos(ky)cos(kz) - [...] = 0"@)[0] != ("1.1[...] - 0.2[...] - 0.4[...] = 0"@)[0]);
    assert(("(1/2)[...] - (1/2)[...] + 0.15 = 0"@)[0] != ("1.1[...] - 0.2[...] - 0.4[...] = 0"@)[0]);
    assert(("cos(2kx)sin(ky)cos(kz) + ... = 0"@)[0] != ("2cos(kx)cos(ky)cos(kz) + ... = 0"@)[0]);
}

/// The family listing holds every family exactly once.
pub proof fn lemma_all_families_complete(f: TpmsFamily)
    ensures
        spec_all_families().contains(f),
        spec_all_families().no_duplicates(),
        spec_all_families().len() == 11,
{
    let s = spec_all_families();
    match f {
        TpmsFamily::Gyroid => assert(s[0] == f),
        TpmsFamily::SchwarzP => assert(s[1] == f),
        TpmsFamily::SchwarzD => assert(s[2] == f),
        TpmsFamily::SchoenIwp => assert(s[3] == f),
        TpmsFamily::Neovius => assert(s[4] == f),
        TpmsFamily::FRD => assert(s[5] == f),
        TpmsFamily::Lidinoid => assert(s[6] == f),
        TpmsFamily::SplitP => assert(s[7] == f),
        TpmsFamily::FischerKochSY => assert(s[8] == f),
        TpmsFamily::FischerKochSCP => assert(s[9] == f),
        TpmsFamily::FischerKochSC => assert(s[10] == f),
    }
}

} // verus!
