use drift::dopr54_cpu::split_tokens;
use drift::dopr54_cpu::parse_c_int;
use drift::config::{Engine, Implementation, Method};
use drift::integrators::{run_integration, IntegrationError};
use drift::dopr54_cpu::parse_dopr54_dump_fields;
use drift::interface::bounds::{linspace_from_samples, tolerance_from_value, LinspaceError};
use drift::engines::dopr54::{keep_launching, particle_count, ShapeError};
use drift::interface::container::particle_recipe;
use drift::recipe::{PotentialName, Recipe};

fn line(tokens: &[&str]) -> Vec<String> {
    tokens.iter().map(|t| t.to_string()).collect()
}

#[test]
fn dump_fields_by_key() {
    let lines = vec![
        line(&["dim", "6"]),
        line(&["nt", "3"]),
        line(&[]),
        line(&["rtol", "-20"]),
        line(&["atol", "-21"]),
        line(&["t", "0", "0.5"]),
        line(&["t", "1.0"]),
        line(&["yo", "1", "0", "0", "0", "1", "0"]),
        line(&["comment", "ignored"]),
        line(&["dim", "7"]),
        line(&["dim"]),
    ];
    let f = parse_dopr54_dump_fields(&lines);
    assert_eq!(f.dim, vec!["6", "7"]);
    assert_eq!(f.nt, vec!["3"]);
    assert!(f.dt_one.is_empty());
    assert_eq!(f.rtol, vec!["-20"]);
    assert_eq!(f.atol, vec!["-21"]);
    assert_eq!(f.t, vec!["0", "0.5", "1.0"]);
    assert_eq!(f.yo.len(), 6);
    assert!(f.nargs.is_empty());
    assert!(f.args.is_empty());
}

#[test]
fn initial_shape_checks() {
    assert_eq!(particle_count(&[5, 6]), Ok(5));
    assert_eq!(particle_count(&[5, 7]), Err(ShapeError::NotParticleStates));
    assert_eq!(particle_count(&[30]), Err(ShapeError::NotParticleStates));
    assert_eq!(particle_count(&[0, 6]), Err(ShapeError::NoParticles));
}

#[test]
fn launching_stops_when_all_done_or_capped() {
    assert!(keep_launching(&[1, 0, 1], 3, 10));
    assert!(!keep_launching(&[1, 1, 1], 3, 10));
    assert!(!keep_launching(&[0], 10, 10));
    assert!(!keep_launching(&[], 0, 10));
}

#[test]
fn kepler_and_plummer_attach_to_particles() {
    match particle_recipe(Recipe::kepler(2.5f64), 0.0) {
        Some(Recipe::CustomKepler(r)) => {
            assert_eq!(r.amp, 2.5);
            assert_eq!((r.length, r.offset, r.division), (0, 0, 0));
            assert_eq!(r.final_time, 0.0);
            assert_eq!(r.name, PotentialName::CustomKepler);
        }
        _ => panic!("expected a particle-attached Kepler recipe"),
    }
    match particle_recipe(Recipe::plummer(1.0f64, 0.3), 0.0) {
        Some(Recipe::CustomPlummer(r)) => {
            assert_eq!((r.amp, r.radius), (1.0, 0.3));
            assert_eq!(r.name, PotentialName::CustomPlummer);
        }
        _ => panic!("expected a particle-attached Plummer recipe"),
    }
}

#[test]
fn bovy_cannot_attach_to_particles() {
    assert!(particle_recipe(Recipe::<f64>::bovy(), 0.0).is_none());
}

#[test]
fn grid_from_sample_points() {
    let l = linspace_from_samples(&[0.0f64, 0.5, 1.0, 1.5]).unwrap();
    assert_eq!((l.start, l.end, l.steps), (0.0, 1.5, 4));
    assert_eq!(linspace_from_samples(&[1.0f64]).err(), Some(LinspaceError::TooFewPoints));
    assert_eq!(linspace_from_samples::<f64>(&[]).err(), Some(LinspaceError::TooFewPoints));
    let t = tolerance_from_value(1e-9f64);
    assert_eq!((t.rtol, t.atol), (1e-9, 1e-9));
}

#[test]
fn integration_runs_on_the_configured_engine() {
    let gpu = |x: i32| -> Result<i32, &'static str> { Ok(x + 1) };
    let cpu = |x: i32| -> Result<i32, &'static str> { Ok(x + 2) };
    assert!(matches!(run_integration(Engine::GPU, Method::DOPR54, Implementation::GALPY, 10, gpu, cpu), Ok(11)));
    assert!(matches!(run_integration(Engine::CPU, Method::DOP853, Implementation::GALPY, 10, gpu, cpu), Ok(12)));
    let failing = |_: i32| -> Result<i32, &'static str> { Err("no device") };
    assert!(matches!(
        run_integration(Engine::GPU, Method::DOPR54, Implementation::GALPY, 0, failing, cpu),
        Err(IntegrationError::Dispatch("no device"))
    ));
    assert!(matches!(
        run_integration(Engine::CPU, Method::DOPR54, Implementation::SCIPY, 0, gpu, cpu),
        Err(IntegrationError::UnsupportedConfiguration {
            engine: Engine::CPU,
            method: Method::DOPR54,
            implementation: Implementation::SCIPY
        })
    ));
}

#[test]
fn dump_integers_read_as_c_ints() {
    assert_eq!(parse_c_int("6"), Some(6));
    assert_eq!(parse_c_int("+12"), Some(12));
    assert_eq!(parse_c_int("-0"), Some(0));
    assert_eq!(parse_c_int("-2147483648"), Some(i32::MIN));
    assert_eq!(parse_c_int("2147483647"), Some(i32::MAX));
    assert_eq!(parse_c_int("2147483648"), None);
    assert_eq!(parse_c_int("-2147483649"), None);
    assert_eq!(parse_c_int("99999999999999999999"), None);
    assert_eq!(parse_c_int(""), None);
    assert_eq!(parse_c_int("-"), None);
    assert_eq!(parse_c_int("1.5"), None);
    assert_eq!(parse_c_int("0x10"), None);
    assert_eq!(parse_c_int(" 3"), None);
    for text in ["6", "+12", "-0", "2147483648", "", "-", "1.5", "+-1", "007"] {
        assert_eq!(parse_c_int(text), text.parse::<i32>().ok());
    }
}

#[test]
fn dump_lines_split_like_split_whitespace() {
    let lines = [
        "dim 6",
        "  t 0.0\t1.5   3.0  ",
        "",
        "   ",
        "yo\u{a0}1\u{2003}2\u{3000}3\n",
        "args",
        "x\u{200b}y",
        "\u{85}a\u{1680}b\u{2028}c\u{2029}d\u{202f}e\u{205f}f\u{b}g\u{c}h\ri",
    ];
    for line in lines {
        let tokens: Vec<String> = split_tokens(line).into_iter().map(|t| t.into_iter().collect()).collect();
        let expected: Vec<String> = line.split_whitespace().map(str::to_owned).collect();
        assert_eq!(tokens, expected, "line {line:?}");
    }
    assert_eq!(split_tokens("a  bc"), vec![vec!['a'], vec!['b', 'c']]);
}

#[test]
fn every_scalar_value_is_kept_for_reading() {
    let lines = vec![line(&["dim", "x"]), line(&["dim", "2"])];
    let f = parse_dopr54_dump_fields(&lines);
    assert_eq!(f.dim, vec!["x", "2"]);
    // The first value does not read as an integer, so reading the dump fails there.
    assert_eq!(parse_c_int(&f.dim[0]), None);
    assert_eq!(parse_c_int(&f.dim[1]), Some(2));
}
