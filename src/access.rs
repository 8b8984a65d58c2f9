use vstd::prelude::*;

verus! {

/// Whether a request may reach the service: it must carry the shared
/// secret, exactly, in its authorization header. A request refused here
/// never reaches the task registry.
pub fn auth(header: Option<&str>, api_key: &String) -> (r: bool)
    ensures
        r == (header matches Some(h) && h@ == api_key@),
{
    match header {
        None => false,
        Some(h) => {
            let given = String::from_str(h);
            given == *api_key
        },
    }
}

} // verus!
