use vstd::prelude::*;

verus! {

/// The standard concrete strength classes (C f_ck / f_ck,cube).
#[derive(Debug, Clone, Copy, PartialEq, Eq, Structural)]
pub enum StandardConcrete {
    C12_15,
    C16_20,
    C20_25,
    C25_30,
    C30_37,
    C35_45,
    C40_50,
    C45_55,
    C50_60,
    C55_67,
    C60_75,
    C70_85,
    C80_95,
    C90_105,
}

impl StandardConcrete {
    /// The characteristic cylinder strength f_ck (MPa) of the class.
    pub open spec fn spec_char_strength(self) -> u32 {
        match self {
            StandardConcrete::C12_15 => 12,
            StandardConcrete::C16_20 => 16,
            StandardConcrete::C20_25 => 20,
            StandardConcrete::C25_30 => 25,
            StandardConcrete::C30_37 => 30,
            StandardConcrete::C35_45 => 35,
            StandardConcrete::C40_50 => 40,
            StandardConcrete::C45_55 => 45,
            StandardConcrete::C50_60 => 50,
            StandardConcrete::C55_67 => 55,
            StandardConcrete::C60_75 => 60,
            StandardConcrete::C70_85 => 70,
            StandardConcrete::C80_95 => 80,
            StandardConcrete::C90_105 => 90,
        }
    }

    /// The characteristic cylinder strength f_ck (MPa) of the class, from which the concrete of
    /// the class is created.
    pub fn char_strength(&self) -> (f_ck: u32)
        ensures
            f_ck == self.spec_char_strength(),
    {
        match *self {
            StandardConcrete::C12_15 => 12,
            StandardConcrete::C16_20 => 16,
            StandardConcrete::C20_25 => 20,
            StandardConcrete::C25_30 => 25,
            StandardConcrete::C30_37 => 30,
            StandardConcrete::C35_45 => 35,
            StandardConcrete::C40_50 => 40,
            StandardConcrete::C45_55 => 45,
            StandardConcrete::C50_60 => 50,
            StandardConcrete::C55_67 => 55,
            StandardConcrete::C60_75 => 60,
            StandardConcrete::C70_85 => 70,
            StandardConcrete::C80_95 => 80,
            StandardConcrete::C90_105 => 90,
        }
    }
}

/// Every standard class has a characteristic strength between 12 and 90 MPa, and distinct
/// classes have distinct strengths.
pub proof fn lemma_char_strength_distinct(a: StandardConcrete, b: StandardConcrete)
    ensures
        12 <= a.spec_char_strength() <= 90,
        a != b ==> a.spec_char_strength() != b.spec_char_strength(),
{
}

/// The place of a class in the order of the classes, from the weakest name (C12/15) to the
/// strongest (C90/105).
pub open spec fn class_rank(c: StandardConcrete) -> int {
    match c {
        StandardConcrete::C12_15 => 0,
        StandardConcrete::C16_20 => 1,
        StandardConcrete::C20_25 => 2,
        StandardConcrete::C25_30 => 3,
        StandardConcrete::C30_37 => 4,
        StandardConcrete::C35_45 => 5,
        StandardConcrete::C40_50 => 6,
        StandardConcrete::C45_55 => 7,
        StandardConcrete::C50_60 => 8,
        StandardConcrete::C55_67 => 9,
        StandardConcrete::C60_75 => 10,
        StandardConcrete::C70_85 => 11,
        StandardConcrete::C80_95 => 12,
        StandardConcrete::C90_105 => 13,
    }
}

/// The characteristic strength grows strictly with the class: a class later in the order of the
/// classes is stronger, by at least 4 MPa, and the weakest and strongest classes are 12 and
/// 90 MPa.
pub proof fn lemma_char_strength_increasing(a: StandardConcrete, b: StandardConcrete)
    ensures
        class_rank(a) < class_rank(b) ==> a.spec_char_strength() + 4 <= b.spec_char_strength(),
        class_rank(a) == 0 ==> a.spec_char_strength() == 12,
        class_rank(a) == 13 ==> a.spec_char_strength() == 90,
{
}

} // verus!
