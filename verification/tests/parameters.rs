use nolan::parameters::{Parameter, ParameterConfig};
use std::convert::TryFrom;

#[test]
fn try_from() {
    for p in [
        Parameter::Time,
        Parameter::Tau,
        Parameter::X,
        Parameter::Y,
        Parameter::Z,
        Parameter::VX,
        Parameter::VY,
        Parameter::VZ,
        Parameter::AX,
        Parameter::AY,
        Parameter::AZ,
    ] {
        assert_eq!(p.clone(), Parameter::try_from(p.index()).unwrap())
    }
}

#[test]
pub fn test_add_parameter() {
    let config = ParameterConfig::<2>::new()
        .add_parameter(Parameter::Time)
        .add_parameter(Parameter::AX);

    assert_eq!(config.active_mask(), 1 + 256);
    assert_eq!(config.parameter_count(), 2);
    assert_eq!(config.index_map()[0], Some(0));
    assert_eq!(config.index_map()[8], Some(1));
    assert_eq!(config.reverse_map()[0], Parameter::Time);
    assert_eq!(config.reverse_map()[1], Parameter::AX);
}

#[test]
pub fn test_with_parameter() {
    let config = ParameterConfig::<2>::new()
        .with_parameter(Parameter::Time)
        .with_parameter(Parameter::AX)
        .with_parameter(Parameter::X);

    assert_eq!(config.active_mask(), 1 + 256 + 4);
    assert_eq!(config.parameter_count(), 3);
    assert_eq!(config.index_map()[0], Some(0));
    assert_eq!(config.index_map()[8], Some(1));
    assert_eq!(config.index_map()[2], Some(2));
    assert_eq!(config.reverse_map()[0], Parameter::Time);
    assert_eq!(config.reverse_map()[1], Parameter::AX);
    assert_eq!(config.reverse_map()[2], Parameter::X);
}

#[test]
pub fn test_with_time() {
    let config = ParameterConfig::<2>::new().with_time();
    assert_eq!(config.active_mask(), 1);
    assert_eq!(config.parameter_count(), 1);
    assert_eq!(config.index_map()[0], Some(0));
    assert_eq!(config.reverse_map()[0], Parameter::Time);
}

#[test]
pub fn test_with_initial_state() {
    let config = ParameterConfig::<2>::new().with_initial_state();
    assert_eq!(config.active_mask(), 4 + 8 + 16 + 32 + 64 + 128);
    assert_eq!(config.parameter_count(), 6);
    assert_eq!(config.index_map()[2], Some(0));
    assert_eq!(config.index_map()[3], Some(1));
    assert_eq!(config.index_map()[4], Some(2));
    assert_eq!(config.index_map()[5], Some(3));
    assert_eq!(config.index_map()[6], Some(4));
    assert_eq!(config.index_map()[7], Some(5));
    assert_eq!(config.reverse_map()[0], Parameter::X);
    assert_eq!(config.reverse_map()[1], Parameter::Y);
    assert_eq!(config.reverse_map()[2], Parameter::Z);
    assert_eq!(config.reverse_map()[3], Parameter::VX);
    assert_eq!(config.reverse_map()[4], Parameter::VY);
    assert_eq!(config.reverse_map()[5], Parameter::VZ);
}

#[test]
fn parameter_names_and_indices() {
    let all = [
        (Parameter::Time, "Time"),
        (Parameter::Tau, "Tau"),
        (Parameter::X, "X0"),
        (Parameter::Y, "Y0"),
        (Parameter::Z, "Z0"),
        (Parameter::VX, "VX0"),
        (Parameter::VY, "VY0"),
        (Parameter::VZ, "VZ0"),
        (Parameter::AX, "AX0"),
        (Parameter::AY, "AY0"),
        (Parameter::AZ, "AZ0"),
    ];
    for (i, (p, name)) in all.iter().enumerate() {
        assert_eq!(p.index(), i);
        assert_eq!(p.name(), *name);
    }
}

#[test]
fn try_from_refuses_indices_past_the_last_parameter() {
    for i in 11..40 {
        assert_eq!(Parameter::try_from(i), Err(()));
    }
}

#[test]
fn adding_a_parameter_twice_keeps_its_active_index() {
    let config = ParameterConfig::<1>::new()
        .with_parameter(Parameter::VY)
        .with_time()
        .with_parameter(Parameter::VY)
        .with_time();
    assert_eq!(config.parameter_count(), 2);
    assert_eq!(config.get_index(Parameter::VY), Some(0));
    assert_eq!(config.get_index(Parameter::Time), Some(1));
    assert_eq!(config.get_index(Parameter::X), None);
    assert_eq!(config.active_mask(), (1 << 6) | 1);
}

#[test]
fn get_index_and_get_parameter_round_trip() {
    let config = ParameterConfig::<2>::new()
        .with_parameter(Parameter::AZ)
        .with_initial_state()
        .with_time();
    assert_eq!(config.parameter_count(), 8);
    for i in 0..config.parameter_count() {
        let p = config.get_parameter(i).unwrap();
        assert_eq!(config.get_index(p), Some(i));
    }
    assert_eq!(config.get_parameter(9), None);
    assert_eq!(config.get_parameter(100), None);
}

#[test]
fn active_parameters_are_listed_by_parameter_index() {
    let config = ParameterConfig::<2>::new()
        .with_parameter(Parameter::AZ)
        .with_parameter(Parameter::Tau)
        .with_parameter(Parameter::X)
        .with_time();
    assert_eq!(
        config.active_parameters(),
        vec![Parameter::Time, Parameter::Tau, Parameter::X, Parameter::AZ]
    );
    assert_eq!(
        ParameterConfig::<0>::new().active_parameters(),
        Vec::<Parameter>::new()
    );
}

#[test]
fn empty_configuration() {
    let config = ParameterConfig::<3>::new();
    assert_eq!(config.parameter_count(), 0);
    assert_eq!(config.active_mask(), 0);
    assert_eq!(config.index_map().len(), Parameter::MAX_PARAMETERS);
    assert!(config.index_map().iter().all(|e| e.is_none()));
    assert!(config.reverse_map().is_empty());
}

#[test]
fn all_parameters_tracked() {
    let mut config = ParameterConfig::<1>::new();
    for i in (0..11).rev() {
        config = config.with_parameter(Parameter::try_from(i).unwrap());
    }
    assert_eq!(config.parameter_count(), 11);
    assert_eq!(config.active_mask(), (1 << 11) - 1);
    assert_eq!(config.get_index(Parameter::AZ), Some(0));
    assert_eq!(config.get_index(Parameter::Time), Some(10));
    assert_eq!(config.active_parameters().len(), 11);
}

#[test]
fn get_parameter_at_the_count_is_none() {
    let c = ParameterConfig::<2>::new().with_time();
    assert_eq!(c.parameter_count(), 1);
    assert_eq!(c.get_parameter(0), Some(Parameter::Time));
    assert_eq!(c.get_parameter(1), None);
    assert_eq!(ParameterConfig::<1>::new().get_parameter(0), None);
}
