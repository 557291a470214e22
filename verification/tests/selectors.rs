use drift::config::{Engine, Implementation, Method, Variant};
use drift::integrators::{validate_configuration, IntegrationError};
use drift::interface::selector::same_text;
use drift::interface::{PyEngine, PyImplementation, PyMethod, PyVariant};

#[test]
fn engine_values() {
    assert_eq!(PyEngine::from_value("CPU").unwrap().get(), Engine::CPU);
    assert_eq!(PyEngine::from_value("GPU").unwrap().get(), Engine::GPU);
    assert!(PyEngine::from_value("gpu").is_none());
    assert!(PyEngine::from_value("").is_none());
    assert!(PyEngine::from_value("GPUS").is_none());
}

#[test]
fn method_values() {
    assert_eq!(PyMethod::from_value("DOPR54").unwrap().get(), Method::DOPR54);
    assert_eq!(PyMethod::from_value("DOP853").unwrap().get(), Method::DOP853);
    assert!(PyMethod::from_value("RK45").is_none());
}

#[test]
fn variant_values() {
    assert_eq!(PyVariant::from_value("Compatible").unwrap().get(), Variant::Compatible);
    assert_eq!(PyVariant::from_value("Modern").unwrap().get(), Variant::Modern);
    assert!(PyVariant::from_value("modern").is_none());
}

#[test]
fn implementation_values() {
    assert_eq!(PyImplementation::from_value("GALPY").unwrap().get(), Implementation::GALPY);
    assert_eq!(PyImplementation::from_value("SCIPY").unwrap().get(), Implementation::SCIPY);
    assert_eq!(PyImplementation::from_value("DRIFT").unwrap().get(), Implementation::DRIFT);
    assert!(PyImplementation::from_value("NUMPY").is_none());
}

#[test]
fn selector_defaults() {
    assert_eq!(PyEngine::default().get(), Engine::GPU);
    assert_eq!(PyMethod::default().get(), Method::DOPR54);
    assert_eq!(PyVariant::default().get(), Variant::Compatible);
    assert_eq!(PyImplementation::default().get(), Implementation::GALPY);
}

#[test]
fn text_comparison() {
    assert!(same_text("abc", "abc"));
    assert!(!same_text("abc", "abd"));
    assert!(!same_text("abc", "ab"));
    assert!(same_text("", ""));
    assert!(same_text("é", "é"));
}

#[test]
fn galpy_configurations_are_supported() {
    for engine in [Engine::CPU, Engine::GPU] {
        for method in [Method::DOPR54, Method::DOP853] {
            assert!(validate_configuration::<()>(engine, method, Implementation::GALPY).is_ok());
        }
    }
}

#[test]
fn other_implementations_are_rejected() {
    match validate_configuration::<()>(Engine::CPU, Method::DOP853, Implementation::SCIPY) {
        Err(IntegrationError::UnsupportedConfiguration { engine, method, implementation }) => {
            assert_eq!(engine, Engine::CPU);
            assert_eq!(method, Method::DOP853);
            assert_eq!(implementation, Implementation::SCIPY);
        }
        _ => panic!("expected an unsupported configuration"),
    }
    assert!(validate_configuration::<()>(Engine::GPU, Method::DOPR54, Implementation::DRIFT).is_err());
}
