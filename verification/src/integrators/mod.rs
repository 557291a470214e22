//! Choosing an integrator for a configuration.

use vstd::prelude::*;

use crate::config::{Engine, Implementation, Method};

pub mod dop853_cpu;

verus! {

/// Why an integration did not complete: the configuration has no integrator,
/// or the dispatch of a supported configuration failed with `D`.
pub enum IntegrationError<D> {
    UnsupportedConfiguration { engine: Engine, method: Method, implementation: Implementation },
    Dispatch(D),
}

/// A configuration has an integrator exactly when it asks for the galpy
/// implementation (of either method, on either engine).
pub open spec fn supported(engine: Engine, method: Method, implementation: Implementation) -> bool {
    implementation == Implementation::GALPY
}

/// Accepts the configurations that have an integrator and names the rejected
/// combination otherwise.
pub fn validate_configuration<D>(
    engine: Engine,
    method: Method,
    implementation: Implementation,
) -> (r: Result<(), IntegrationError<D>>)
    ensures
        r is Ok <==> supported(engine, method, implementation),
        implementation == Implementation::GALPY ==> r is Ok,
        implementation != Implementation::GALPY ==> r is Err,
        r matches Err(e) ==> (e == (IntegrationError::<D>::UnsupportedConfiguration {
            engine,
            method,
            implementation,
        })),
{
    match (engine, method, implementation) {
        (Engine::CPU, Method::DOPR54, Implementation::GALPY)
        | (Engine::CPU, Method::DOP853, Implementation::GALPY)
        | (Engine::GPU, Method::DOPR54, Implementation::GALPY)
        | (Engine::GPU, Method::DOP853, Implementation::GALPY) => Ok(()),
        (engine, method, implementation) => Err(IntegrationError::UnsupportedConfiguration { engine, method, implementation }),
    }
}

/// Runs a supported configuration on its engine, handing it `work`: `on_gpu`
/// for the GPU engine, `on_cpu` for the CPU engine. An unsupported configuration is refused before
/// either runs; a dispatch failure comes back as `IntegrationError::Dispatch`.
pub fn run_integration<X, D, O, G, C>(
    engine: Engine,
    method: Method,
    implementation: Implementation,
    work: X,
    on_gpu: G,
    on_cpu: C,
) -> (r: Result<O, IntegrationError<D>>) where G: FnOnce(X) -> Result<O, D>, C: FnOnce(X) -> Result<O, D>
    requires
        supported(engine, method, implementation) && engine == Engine::GPU ==> call_requires(on_gpu, (work,)),
        supported(engine, method, implementation) && engine == Engine::CPU ==> call_requires(on_cpu, (work,)),
    ensures
        implementation != Implementation::GALPY ==> (r matches Err(e) && e is UnsupportedConfiguration),
        implementation == Implementation::GALPY ==> !(r matches Err(e) && e is UnsupportedConfiguration),
        !supported(engine, method, implementation) ==> (r matches Err(e) && e == (IntegrationError::<
            D,
        >::UnsupportedConfiguration { engine, method, implementation })),
        supported(engine, method, implementation) && engine == Engine::GPU ==> {
            &&& (r matches Ok(o) ==> call_ensures(on_gpu, (work,), Ok(o)))
            &&& (r matches Err(e) ==> (e matches IntegrationError::Dispatch(d) && call_ensures(on_gpu, (work,), Err(d))))
        },
        supported(engine, method, implementation) && engine == Engine::CPU ==> {
            &&& (r matches Ok(o) ==> call_ensures(on_cpu, (work,), Ok(o)))
            &&& (r matches Err(e) ==> (e matches IntegrationError::Dispatch(d) && call_ensures(on_cpu, (work,), Err(d))))
        },
{
    match validate_configuration::<D>(engine, method, implementation) {
        Err(e) => Err(e),
        Ok(()) => {
            let outcome = match engine {
                Engine::GPU => on_gpu(work),
                Engine::CPU => on_cpu(work),
            };
            match outcome {
                Ok(o) => Ok(o),
                Err(d) => Err(IntegrationError::Dispatch(d)),
            }
        },
    }
}

} // verus!
