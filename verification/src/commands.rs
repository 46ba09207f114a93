//! The two admin commands: deploy an app, remove an app.

use crate::client::AddRequest;
use crate::client::AppClient;
use crate::client::Res;
use vstd::prelude::*;

verus! {

/// Deploy `app_name` running `image` on `port` through the given client.
pub fn run<C: AppClient>(ac: &mut C, app_name: &str, image: &str, port: u32) -> (r: Res)
    ensures
        r is Ok ==> final(ac).adds() == old(ac).adds().push(
            (AddRequest { app_name: app_name@, app_image: image@, port }),
        ),
        r is Err ==> final(ac).adds() == old(ac).adds(),
        final(ac).removes() == old(ac).removes(),
        old(ac).infallible() ==> r is Ok,
        final(ac).infallible() == old(ac).infallible(),
{
    ac.add_app(app_name, image, port)
}

/// Remove `app_name` through the given client.
pub fn rm<C: AppClient>(ac: &mut C, app_name: &str) -> (r: Res)
    ensures
        r is Ok ==> final(ac).removes() == old(ac).removes().push(app_name@),
        r is Err ==> final(ac).removes() == old(ac).removes(),
        final(ac).adds() == old(ac).adds(),
        old(ac).infallible() ==> r is Ok,
        final(ac).infallible() == old(ac).infallible(),
{
    ac.rm_app(app_name)
}

} // verus!
