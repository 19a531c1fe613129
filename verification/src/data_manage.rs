//! The closed enumeration of telemetry sources and its naming: every
//! collected record is filed under one source, and the REST side looks
//! sources up again by name.

use vstd::prelude::*;

verus! {

/// Every source of collected data. `Count` and `Invalid` are markers: the
/// first bounds the table of real sources, the second is the lookup result
/// for an unknown name.
#[derive(PartialEq, Eq, Structural, Clone, Copy, Debug)]
pub enum DataSource {
    Example,
    GoproImage,
    GlobalPosition,
    IrCamImage,
    Power,
    Temperature,
    Environmental,
    ObcTelemetry,
    PiCamImage,
    Altitude,
    Count,
    Invalid,
}

/// Number of real data sources (every variant before `Count`).
pub const DATA_SOURCE_COUNT: usize = 10;

impl DataSource {
    /// The position of this source, as used to index per-source tables.
    pub open spec fn spec_index(self) -> usize {
        match self {
            DataSource::Example => 0,
            DataSource::GoproImage => 1,
            DataSource::GlobalPosition => 2,
            DataSource::IrCamImage => 3,
            DataSource::Power => 4,
            DataSource::Temperature => 5,
            DataSource::Environmental => 6,
            DataSource::ObcTelemetry => 7,
            DataSource::PiCamImage => 8,
            DataSource::Altitude => 9,
            DataSource::Count => 10,
            DataSource::Invalid => 11,
        }
    }

    /// The position of this source, as used to index per-source tables.
    pub fn index(&self) -> (r: usize)
        ensures
            r == self.spec_index(),
    {
        match *self {
            DataSource::Example => 0,
            DataSource::GoproImage => 1,
            DataSource::GlobalPosition => 2,
            DataSource::IrCamImage => 3,
            DataSource::Power => 4,
            DataSource::Temperature => 5,
            DataSource::Environmental => 6,
            DataSource::ObcTelemetry => 7,
            DataSource::PiCamImage => 8,
            DataSource::Altitude => 9,
            DataSource::Count => 10,
            DataSource::Invalid => 11,
        }
    }

    /// All real sources, in table order.
    pub fn iter() -> (r: Vec<DataSource>)
        ensures
            r@ == seq![
                DataSource::Example,
                DataSource::GoproImage,
                DataSource::GlobalPosition,
                DataSource::IrCamImage,
                DataSource::Power,
                DataSource::Temperature,
                DataSource::Environmental,
                DataSource::ObcTelemetry,
                DataSource::PiCamImage,
                DataSource::Altitude,
            ],
            r@.len() == DATA_SOURCE_COUNT,
    {
        let mut sources: Vec<DataSource> = Vec::new();
        sources.push(DataSource::Example);
        sources.push(DataSource::GoproImage);
        sources.push(DataSource::GlobalPosition);
        sources.push(DataSource::IrCamImage);
        sources.push(DataSource::Power);
        sources.push(DataSource::Temperature);
        sources.push(DataSource::Environmental);
        sources.push(DataSource::ObcTelemetry);
        sources.push(DataSource::PiCamImage);
        sources.push(DataSource::Altitude);
        proof {
            assert(sources@ =~= seq![
                DataSource::Example,
                DataSource::GoproImage,
                DataSource::GlobalPosition,
                DataSource::IrCamImage,
                DataSource::Power,
                DataSource::Temperature,
                DataSource::Environmental,
                DataSource::ObcTelemetry,
                DataSource::PiCamImage,
                DataSource::Altitude,
            ]);
        }
        sources
    }
}

/// The storage and lookup name of each source.
pub open spec fn spec_data_source_name(source: DataSource) -> Seq<char> {
    match source {
        DataSource::Example => "example"@,
        DataSource::GoproImage => "gopro_image"@,
        DataSource::GlobalPosition => "global_position"@,
        DataSource::IrCamImage => "thermal_img"@,
        DataSource::Power => "power"@,
        DataSource::Temperature => "temperature"@,
        DataSource::Environmental => "environmental"@,
        DataSource::ObcTelemetry => "obc_telemetry"@,
        DataSource::PiCamImage => "picam_image"@,
        DataSource::Altitude => "altitude"@,
        _ => "unsupported"@,
    }
}

/// The source a name designates, or `Invalid` for an unknown name.
pub open spec fn spec_data_source_by_name(name: Seq<char>) -> DataSource {
    if name == "example"@ {
        DataSource::Example
    } else if name == "gopro_image"@ {
        DataSource::GoproImage
    } else if name == "global_position"@ {
        DataSource::GlobalPosition
    } else if name == "thermal_img"@ {
        DataSource::IrCamImage
    } else if name == "power"@ {
        DataSource::Power
    } else if name == "temperature"@ {
        DataSource::Temperature
    } else if name == "environmental"@ {
        DataSource::Environmental
    } else if name == "obc_telemetry"@ {
        DataSource::ObcTelemetry
    } else if name == "picam_image"@ {
        DataSource::PiCamImage
    } else if name == "altitude"@ {
        DataSource::Altitude
    } else {
        DataSource::Invalid
    }
}

/// The name a source is filed under.
pub fn get_data_source_string(source: &DataSource) -> (r: String)
    ensures
        r@ == spec_data_source_name(*source),
{
    match source {
        DataSource::Example => "example".to_owned(),
        DataSource::GoproImage => "gopro_image".to_owned(),
        DataSource::GlobalPosition => "global_position".to_owned(),
        DataSource::IrCamImage => "thermal_img".to_owned(),
        DataSource::Power => "power".to_owned(),
        DataSource::Temperature => "temperature".to_owned(),
        DataSource::Environmental => "environmental".to_owned(),
        DataSource::ObcTelemetry => "obc_telemetry".to_owned(),
        DataSource::PiCamImage => "picam_image".to_owned(),
        DataSource::Altitude => "altitude".to_owned(),
        _ => "unsupported".to_owned(),
    }
}

/// Looks a source up by its name; an unknown name maps to `Invalid`.
pub fn get_data_source_by_name(source_name: String) -> (r: DataSource)
    ensures
        r == spec_data_source_by_name(source_name@),
{
    if source_name == "example".to_owned() {
        DataSource::Example
    } else if source_name == "gopro_image".to_owned() {
        DataSource::GoproImage
    } else if source_name == "global_position".to_owned() {
        DataSource::GlobalPosition
    } else if source_name == "thermal_img".to_owned() {
        DataSource::IrCamImage
    } else if source_name == "power".to_owned() {
        DataSource::Power
    } else if source_name == "temperature".to_owned() {
        DataSource::Temperature
    } else if source_name == "environmental".to_owned() {
        DataSource::Environmental
    } else if source_name == "obc_telemetry".to_owned() {
        DataSource::ObcTelemetry
    } else if source_name == "picam_image".to_owned() {
        DataSource::PiCamImage
    } else if source_name == "altitude".to_owned() {
        DataSource::Altitude
    } else {
        DataSource::Invalid
    }
}

/// Naming is consistent: looking up the stored name of any real source
/// finds that source again.
pub proof fn lemma_source_name_round_trip(source: DataSource)
    requires
        source.spec_index() < DATA_SOURCE_COUNT,
    ensures
        spec_data_source_by_name(spec_data_source_name(source)) == source,
{
    reveal_strlit("example");
    reveal_strlit("gopro_image");
    reveal_strlit("global_position");
    reveal_strlit("thermal_img");
    reveal_strlit("power");
    reveal_strlit("temperature");
    reveal_strlit("environmental");
    reveal_strlit("obc_telemetry");
    reveal_strlit("picam_image");
    reveal_strlit("altitude");
    broadcast use vstd::string::group_string_axioms;

    // Pin each name's length and leading characters, so that the
    // solver can tell any two of them apart.
    assert("example"@.len() == 7);
    assert("gopro_image"@.len() == 11);
    assert("global_position"@.len() == 15);
    assert("thermal_img"@.len() == 11);
    assert("power"@.len() == 5);
    assert("temperature"@.len() == 11);
    assert("environmental"@.len() == 13);
    assert("obc_telemetry"@.len() == 13);
    assert("picam_image"@.len() == 11);
    assert("altitude"@.len() == 8);
    assert("example"@[0] == 'e' && "example"@[1] == 'x');
    assert("gopro_image"@[0] == 'g' && "gopro_image"@[1] == 'o');
    assert("global_position"@[0] == 'g' && "global_position"@[1] == 'l');
    assert("thermal_img"@[0] == 't' && "thermal_img"@[1] == 'h');
    assert("power"@[0] == 'p' && "power"@[1] == 'o');
    assert("temperature"@[0] == 't' && "temperature"@[1] == 'e');
    assert("environmental"@[0] == 'e' && "environmental"@[1] == 'n');
    assert("obc_telemetry"@[0] == 'o' && "obc_telemetry"@[1] == 'b');
    assert("picam_image"@[0] == 'p' && "picam_image"@[1] == 'i');
    assert("altitude"@[0] == 'a' && "altitude"@[1] == 'l');
    match source {
        DataSource::Example => {},
        DataSource::GoproImage => {
            assert("gopro_image"@ != "example"@);
        },
        DataSource::GlobalPosition => {
            assert("global_position"@ != "example"@);
            assert("global_position"@ != "gopro_image"@);
        },
        DataSource::IrCamImage => {
            assert("thermal_img"@ != "example"@);
            assert("thermal_img"@ != "gopro_image"@);
            assert("thermal_img"@ != "global_position"@);
        },
        DataSource::Power => {
            assert("power"@ != "example"@);
            assert("power"@ != "gopro_image"@);
            assert("power"@ != "global_position"@);
            assert("power"@ != "thermal_img"@);
        },
        DataSource::Temperature => {
            assert("temperature"@ != "example"@);
            assert("temperature"@ != "gopro_image"@);
            assert("temperature"@ != "global_position"@);
            assert("temperature"@ != "thermal_img"@);
            assert("temperature"@ != "power"@);
        },
        DataSource::Environmental => {
            assert("environmental"@ != "example"@);
            assert("environmental"@ != "gopro_image"@);
            assert("environmental"@ != "global_position"@);
            assert("environmental"@ != "thermal_img"@);
            assert("environmental"@ != "power"@);
            assert("environmental"@ != "temperature"@);
        },
        DataSource::ObcTelemetry => {
            assert("obc_telemetry"@ != "example"@);
            assert("obc_telemetry"@ != "gopro_image"@);
            assert("obc_telemetry"@ != "global_position"@);
            assert("obc_telemetry"@ != "thermal_img"@);
            assert("obc_telemetry"@ != "power"@);
            assert("obc_telemetry"@ != "temperature"@);
            assert("obc_telemetry"@ != "environmental"@);
        },
        DataSource::PiCamImage => {
            assert("picam_image"@ != "example"@);
            assert("picam_image"@ != "gopro_image"@);
            assert("picam_image"@ != "global_position"@);
            assert("picam_image"@ != "thermal_img"@);
            assert("picam_image"@ != "power"@);
            assert("picam_image"@ != "temperature"@);
            assert("picam_image"@ != "environmental"@);
            assert("picam_image"@ != "obc_telemetry"@);
        },
        DataSource::Altitude => {
            assert("altitude"@ != "example"@);
            assert("altitude"@ != "gopro_image"@);
            assert("altitude"@ != "global_position"@);
            assert("altitude"@ != "thermal_img"@);
            assert("altitude"@ != "power"@);
            assert("altitude"@ != "temperature"@);
            assert("altitude"@ != "environmental"@);
            assert("altitude"@ != "obc_telemetry"@);
            assert("altitude"@ != "picam_image"@);
        },
        _ => {},
    }
}

} // verus!
