//! Enumerated categories of the simulation (outputs, resources,
//! byproducts, feedstocks, process features, latitudes, incomes)
//! and small total maps keyed by them.
//!
//! All magnitudes in the engine are fixed-point integers; each map
//! is a struct with one field per key, with a ghost model over `int`.

use vstd::prelude::*;

verus! {

/// A category of produced output.
#[derive(Clone, Copy, PartialEq, Eq, Structural, Debug)]
pub enum Output {
    Fuel,
    Electricity,
    PlantCalories,
    AnimalCalories,
}

/// A basic resource drawn on by production.
#[derive(Clone, Copy, PartialEq, Eq, Structural, Debug)]
pub enum Resource {
    Land,
    Water,
    Electricity,
    Fuel,
}

/// A byproduct of production.
#[derive(Clone, Copy, PartialEq, Eq, Structural, Debug)]
pub enum Byproduct {
    Co2,
    Ch4,
    N2o,
    Biodiversity,
}

/// A raw feedstock consumed by processes.
#[derive(Clone, Copy, PartialEq, Eq, Structural, Debug)]
pub enum Feedstock {
    Coal,
    Lithium,
    NaturalGas,
    Oil,
    Uranium,
    Thorium,
    Soil,
    Other,
}

/// A qualitative feature of a production process.
#[derive(Clone, Copy, PartialEq, Eq, Structural, Debug)]
pub enum ProcessFeature {
    BuildsSoil,
    DegradesSoil,
    UsesOil,
    UsesLivestock,
    UsesPesticides,
    UsesSynFertilizer,
    IsIntermittent,
    IsNuclear,
    IsSolar,
    IsCombustion,
    IsFossil,
    IsCCS,
}

/// The latitude band a region lies in.
#[derive(Clone, Copy, PartialEq, Eq, Structural, Debug)]
pub enum Latitude {
    Tropic,
    Subtropic,
    Temperate,
    Frigid,
}

/// A region's income band.
#[derive(Clone, Copy, PartialEq, Eq, Structural, Debug)]
pub enum Income {
    Low,
    LowerMiddle,
    UpperMiddle,
    High,
}

impl Output {
    /// Stable key naming this output, used in effect fingerprints.
    pub fn key(&self) -> (r: &'static str)
        ensures
            r@ == self.key_spec(),
    {
        match self {
            Output::Fuel => "Fuel",
            Output::Electricity => "Electricity",
            Output::PlantCalories => "PlantCalories",
            Output::AnimalCalories => "AnimalCalories",
        }
    }

    pub open spec fn key_spec(self) -> Seq<char> {
        match self {
            Output::Fuel => "Fuel"@,
            Output::Electricity => "Electricity"@,
            Output::PlantCalories => "PlantCalories"@,
            Output::AnimalCalories => "AnimalCalories"@,
        }
    }
}

impl Resource {
    /// Stable key naming this resource, used in effect fingerprints.
    pub fn key(&self) -> (r: &'static str)
        ensures
            r@ == self.key_spec(),
    {
        match self {
            Resource::Land => "Land",
            Resource::Water => "Water",
            Resource::Electricity => "Electricity",
            Resource::Fuel => "Fuel",
        }
    }

    pub open spec fn key_spec(self) -> Seq<char> {
        match self {
            Resource::Land => "Land"@,
            Resource::Water => "Water"@,
            Resource::Electricity => "Electricity"@,
            Resource::Fuel => "Fuel"@,
        }
    }
}

impl Byproduct {
    /// Stable key naming this byproduct, used in effect fingerprints.
    pub fn key(&self) -> (r: &'static str)
        ensures
            r@ == self.key_spec(),
    {
        match self {
            Byproduct::Co2 => "Co2",
            Byproduct::Ch4 => "Ch4",
            Byproduct::N2o => "N2o",
            Byproduct::Biodiversity => "Biodiversity",
        }
    }

    pub open spec fn key_spec(self) -> Seq<char> {
        match self {
            Byproduct::Co2 => "Co2"@,
            Byproduct::Ch4 => "Ch4"@,
            Byproduct::N2o => "N2o"@,
            Byproduct::Biodiversity => "Biodiversity"@,
        }
    }
}

impl Feedstock {
    /// Stable key naming this feedstock, used in effect fingerprints.
    pub fn key(&self) -> (r: &'static str)
        ensures
            r@ == self.key_spec(),
    {
        match self {
            Feedstock::Coal => "Coal",
            Feedstock::Lithium => "Lithium",
            Feedstock::NaturalGas => "NaturalGas",
            Feedstock::Oil => "Oil",
            Feedstock::Uranium => "Uranium",
            Feedstock::Thorium => "Thorium",
            Feedstock::Soil => "Soil",
            Feedstock::Other => "Other",
        }
    }

    pub open spec fn key_spec(self) -> Seq<char> {
        match self {
            Feedstock::Coal => "Coal"@,
            Feedstock::Lithium => "Lithium"@,
            Feedstock::NaturalGas => "NaturalGas"@,
            Feedstock::Oil => "Oil"@,
            Feedstock::Uranium => "Uranium"@,
            Feedstock::Thorium => "Thorium"@,
            Feedstock::Soil => "Soil"@,
            Feedstock::Other => "Other"@,
        }
    }
}

impl ProcessFeature {
    /// Stable key naming this feature, used in effect fingerprints.
    pub fn key(&self) -> (r: &'static str)
        ensures
            r@ == self.key_spec(),
    {
        match self {
            ProcessFeature::BuildsSoil => "BuildsSoil",
            ProcessFeature::DegradesSoil => "DegradesSoil",
            ProcessFeature::UsesOil => "UsesOil",
            ProcessFeature::UsesLivestock => "UsesLivestock",
            ProcessFeature::UsesPesticides => "UsesPesticides",
            ProcessFeature::UsesSynFertilizer => "UsesSynFertilizer",
            ProcessFeature::IsIntermittent => "IsIntermittent",
            ProcessFeature::IsNuclear => "IsNuclear",
            ProcessFeature::IsSolar => "IsSolar",
            ProcessFeature::IsCombustion => "IsCombustion",
            ProcessFeature::IsFossil => "IsFossil",
            ProcessFeature::IsCCS => "IsCCS",
        }
    }

    pub open spec fn key_spec(self) -> Seq<char> {
        match self {
            ProcessFeature::BuildsSoil => "BuildsSoil"@,
            ProcessFeature::DegradesSoil => "DegradesSoil"@,
            ProcessFeature::UsesOil => "UsesOil"@,
            ProcessFeature::UsesLivestock => "UsesLivestock"@,
            ProcessFeature::UsesPesticides => "UsesPesticides"@,
            ProcessFeature::UsesSynFertilizer => "UsesSynFertilizer"@,
            ProcessFeature::IsIntermittent => "IsIntermittent"@,
            ProcessFeature::IsNuclear => "IsNuclear"@,
            ProcessFeature::IsSolar => "IsSolar"@,
            ProcessFeature::IsCombustion => "IsCombustion"@,
            ProcessFeature::IsFossil => "IsFossil"@,
            ProcessFeature::IsCCS => "IsCCS"@,
        }
    }
}

impl Latitude {
    /// Stable key naming this latitude band, used in effect fingerprints.
    pub fn key(&self) -> (r: &'static str)
        ensures
            r@ == self.key_spec(),
    {
        match self {
            Latitude::Tropic => "Tropic",
            Latitude::Subtropic => "Subtropic",
            Latitude::Temperate => "Temperate",
            Latitude::Frigid => "Frigid",
        }
    }

    pub open spec fn key_spec(self) -> Seq<char> {
        match self {
            Latitude::Tropic => "Tropic"@,
            Latitude::Subtropic => "Subtropic"@,
            Latitude::Temperate => "Temperate"@,
            Latitude::Frigid => "Frigid"@,
        }
    }
}

/// Ghost model of an [`OutputMap`]: one mathematical integer per output.
#[verifier::ext_equal]
pub ghost struct OutputLevels {
    pub fuel: int,
    pub electricity: int,
    pub plant_calories: int,
    pub animal_calories: int,
}

impl OutputLevels {
    pub open spec fn index(self, k: Output) -> int {
        match k {
            Output::Fuel => self.fuel,
            Output::Electricity => self.electricity,
            Output::PlantCalories => self.plant_calories,
            Output::AnimalCalories => self.animal_calories,
        }
    }

    pub open spec fn update_index(self, k: Output, v: int) -> OutputLevels {
        match k {
            Output::Fuel => OutputLevels { fuel: v, ..self },
            Output::Electricity => OutputLevels { electricity: v, ..self },
            Output::PlantCalories => OutputLevels { plant_calories: v, ..self },
            Output::AnimalCalories => OutputLevels { animal_calories: v, ..self },
        }
    }
}

/// A total map from [`Output`] to a fixed-point quantity.
#[derive(Clone, Copy, PartialEq, Eq, Structural, Debug)]
pub struct OutputMap {
    pub fuel: i64,
    pub electricity: i64,
    pub plant_calories: i64,
    pub animal_calories: i64,
}

impl View for OutputMap {
    type V = OutputLevels;

    open spec fn view(&self) -> OutputLevels {
        OutputLevels {
            fuel: self.fuel as int,
            electricity: self.electricity as int,
            plant_calories: self.plant_calories as int,
            animal_calories: self.animal_calories as int,
        }
    }
}

impl OutputMap {
    /// The all-zero map.
    pub fn zero() -> (r: OutputMap)
        ensures
            forall|k: Output| r@.index(k) == 0,
    {
        OutputMap { fuel: 0, electricity: 0, plant_calories: 0, animal_calories: 0 }
    }

    pub fn get(&self, k: Output) -> (r: i64)
        ensures
            r == self@.index(k),
    {
        match k {
            Output::Fuel => self.fuel,
            Output::Electricity => self.electricity,
            Output::PlantCalories => self.plant_calories,
            Output::AnimalCalories => self.animal_calories,
        }
    }

    pub fn set(&mut self, k: Output, v: i64)
        ensures
            final(self)@ == old(self)@.update_index(k, v as int),
    {
        match k {
            Output::Fuel => self.fuel = v,
            Output::Electricity => self.electricity = v,
            Output::PlantCalories => self.plant_calories = v,
            Output::AnimalCalories => self.animal_calories = v,
        }
    }
}

/// Ghost model of a [`ResourceMap`]: one mathematical integer per resource.
#[verifier::ext_equal]
pub ghost struct ResourceLevels {
    pub land: int,
    pub water: int,
    pub electricity: int,
    pub fuel: int,
}

impl ResourceLevels {
    pub open spec fn index(self, k: Resource) -> int {
        match k {
            Resource::Land => self.land,
            Resource::Water => self.water,
            Resource::Electricity => self.electricity,
            Resource::Fuel => self.fuel,
        }
    }

    pub open spec fn update_index(self, k: Resource, v: int) -> ResourceLevels {
        match k {
            Resource::Land => ResourceLevels { land: v, ..self },
            Resource::Water => ResourceLevels { water: v, ..self },
            Resource::Electricity => ResourceLevels { electricity: v, ..self },
            Resource::Fuel => ResourceLevels { fuel: v, ..self },
        }
    }
}

/// A total map from [`Resource`] to a fixed-point quantity.
#[derive(Clone, Copy, PartialEq, Eq, Structural, Debug)]
pub struct ResourceMap {
    pub land: i64,
    pub water: i64,
    pub electricity: i64,
    pub fuel: i64,
}

impl View for ResourceMap {
    type V = ResourceLevels;

    open spec fn view(&self) -> ResourceLevels {
        ResourceLevels {
            land: self.land as int,
            water: self.water as int,
            electricity: self.electricity as int,
            fuel: self.fuel as int,
        }
    }
}

impl ResourceMap {
    /// The all-zero map.
    pub fn zero() -> (r: ResourceMap)
        ensures
            forall|k: Resource| r@.index(k) == 0,
    {
        ResourceMap { land: 0, water: 0, electricity: 0, fuel: 0 }
    }

    pub fn get(&self, k: Resource) -> (r: i64)
        ensures
            r == self@.index(k),
    {
        match k {
            Resource::Land => self.land,
            Resource::Water => self.water,
            Resource::Electricity => self.electricity,
            Resource::Fuel => self.fuel,
        }
    }

    pub fn set(&mut self, k: Resource, v: i64)
        ensures
            final(self)@ == old(self)@.update_index(k, v as int),
    {
        match k {
            Resource::Land => self.land = v,
            Resource::Water => self.water = v,
            Resource::Electricity => self.electricity = v,
            Resource::Fuel => self.fuel = v,
        }
    }
}

/// Ghost model of a [`ByproductMap`]: one mathematical integer per byproduct.
#[verifier::ext_equal]
pub ghost struct ByproductLevels {
    pub co2: int,
    pub ch4: int,
    pub n2o: int,
    pub biodiversity: int,
}

impl ByproductLevels {
    pub open spec fn index(self, k: Byproduct) -> int {
        match k {
            Byproduct::Co2 => self.co2,
            Byproduct::Ch4 => self.ch4,
            Byproduct::N2o => self.n2o,
            Byproduct::Biodiversity => self.biodiversity,
        }
    }

    pub open spec fn update_index(self, k: Byproduct, v: int) -> ByproductLevels {
        match k {
            Byproduct::Co2 => ByproductLevels { co2: v, ..self },
            Byproduct::Ch4 => ByproductLevels { ch4: v, ..self },
            Byproduct::N2o => ByproductLevels { n2o: v, ..self },
            Byproduct::Biodiversity => ByproductLevels { biodiversity: v, ..self },
        }
    }
}

/// A total map from [`Byproduct`] to a fixed-point quantity.
#[derive(Clone, Copy, PartialEq, Eq, Structural, Debug)]
pub struct ByproductMap {
    pub co2: i64,
    pub ch4: i64,
    pub n2o: i64,
    pub biodiversity: i64,
}

impl View for ByproductMap {
    type V = ByproductLevels;

    open spec fn view(&self) -> ByproductLevels {
        ByproductLevels {
            co2: self.co2 as int,
            ch4: self.ch4 as int,
            n2o: self.n2o as int,
            biodiversity: self.biodiversity as int,
        }
    }
}

impl ByproductMap {
    /// The all-zero map.
    pub fn zero() -> (r: ByproductMap)
        ensures
            forall|k: Byproduct| r@.index(k) == 0,
    {
        ByproductMap { co2: 0, ch4: 0, n2o: 0, biodiversity: 0 }
    }

    pub fn get(&self, k: Byproduct) -> (r: i64)
        ensures
            r == self@.index(k),
    {
        match k {
            Byproduct::Co2 => self.co2,
            Byproduct::Ch4 => self.ch4,
            Byproduct::N2o => self.n2o,
            Byproduct::Biodiversity => self.biodiversity,
        }
    }

    pub fn set(&mut self, k: Byproduct, v: i64)
        ensures
            final(self)@ == old(self)@.update_index(k, v as int),
    {
        match k {
            Byproduct::Co2 => self.co2 = v,
            Byproduct::Ch4 => self.ch4 = v,
            Byproduct::N2o => self.n2o = v,
            Byproduct::Biodiversity => self.biodiversity = v,
        }
    }
}

/// Ghost model of a [`FeedstockMap`]: one mathematical integer per feedstock.
#[verifier::ext_equal]
pub ghost struct FeedstockLevels {
    pub coal: int,
    pub lithium: int,
    pub natural_gas: int,
    pub oil: int,
    pub uranium: int,
    pub thorium: int,
    pub soil: int,
    pub other: int,
}

impl FeedstockLevels {
    pub open spec fn index(self, k: Feedstock) -> int {
        match k {
            Feedstock::Coal => self.coal,
            Feedstock::Lithium => self.lithium,
            Feedstock::NaturalGas => self.natural_gas,
            Feedstock::Oil => self.oil,
            Feedstock::Uranium => self.uranium,
            Feedstock::Thorium => self.thorium,
            Feedstock::Soil => self.soil,
            Feedstock::Other => self.other,
        }
    }

    pub open spec fn update_index(self, k: Feedstock, v: int) -> FeedstockLevels {
        match k {
            Feedstock::Coal => FeedstockLevels { coal: v, ..self },
            Feedstock::Lithium => FeedstockLevels { lithium: v, ..self },
            Feedstock::NaturalGas => FeedstockLevels { natural_gas: v, ..self },
            Feedstock::Oil => FeedstockLevels { oil: v, ..self },
            Feedstock::Uranium => FeedstockLevels { uranium: v, ..self },
            Feedstock::Thorium => FeedstockLevels { thorium: v, ..self },
            Feedstock::Soil => FeedstockLevels { soil: v, ..self },
            Feedstock::Other => FeedstockLevels { other: v, ..self },
        }
    }
}

/// A total map from [`Feedstock`] to a fixed-point quantity.
#[derive(Clone, Copy, PartialEq, Eq, Structural, Debug)]
pub struct FeedstockMap {
    pub coal: i64,
    pub lithium: i64,
    pub natural_gas: i64,
    pub oil: i64,
    pub uranium: i64,
    pub thorium: i64,
    pub soil: i64,
    pub other: i64,
}

impl View for FeedstockMap {
    type V = FeedstockLevels;

    open spec fn view(&self) -> FeedstockLevels {
        FeedstockLevels {
            coal: self.coal as int,
            lithium: self.lithium as int,
            natural_gas: self.natural_gas as int,
            oil: self.oil as int,
            uranium: self.uranium as int,
            thorium: self.thorium as int,
            soil: self.soil as int,
            other: self.other as int,
        }
    }
}

impl FeedstockMap {
    /// The all-zero map.
    pub fn zero() -> (r: FeedstockMap)
        ensures
            forall|k: Feedstock| r@.index(k) == 0,
    {
        FeedstockMap {
            coal: 0,
            lithium: 0,
            natural_gas: 0,
            oil: 0,
            uranium: 0,
            thorium: 0,
            soil: 0,
            other: 0,
        }
    }

    pub fn get(&self, k: Feedstock) -> (r: i64)
        ensures
            r == self@.index(k),
    {
        match k {
            Feedstock::Coal => self.coal,
            Feedstock::Lithium => self.lithium,
            Feedstock::NaturalGas => self.natural_gas,
            Feedstock::Oil => self.oil,
            Feedstock::Uranium => self.uranium,
            Feedstock::Thorium => self.thorium,
            Feedstock::Soil => self.soil,
            Feedstock::Other => self.other,
        }
    }

    pub fn set(&mut self, k: Feedstock, v: i64)
        ensures
            final(self)@ == old(self)@.update_index(k, v as int),
    {
        match k {
            Feedstock::Coal => self.coal = v,
            Feedstock::Lithium => self.lithium = v,
            Feedstock::NaturalGas => self.natural_gas = v,
            Feedstock::Oil => self.oil = v,
            Feedstock::Uranium => self.uranium = v,
            Feedstock::Thorium => self.thorium = v,
            Feedstock::Soil => self.soil = v,
            Feedstock::Other => self.other = v,
        }
    }
}

} // verus!
