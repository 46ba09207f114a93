//! Clients for the admin endpoint through which Apps are created and
//! removed.
//!
//! `AppClient` is the capability the command helpers work against. The
//! production client addresses a deploy endpoint over HTTP; this module
//! holds its state and computes its request URLs, while the embedding
//! binary issues the requests themselves. The test client records every
//! request in memory.

use vstd::prelude::*;
use vstd::string::StringExecFns;

verus! {

/// Why a request to the admin endpoint failed.
#[derive(Debug)]
pub enum ClientError {
    /// The request could not be sent, or the endpoint refused it.
    RequestFailed,
}

impl ClientError {
    /// Human-readable form.
    pub fn message(&self) -> (r: String)
        ensures
            r@ == "request failed"@,
    {
        "request failed".to_owned()
    }
}

/// Result of one request to the admin endpoint.
pub type Res = Result<(), ClientError>;

/// One deploy request, as recorded in a client's history.
pub ghost struct AddRequest {
    /// Name the app was deployed under.
    pub app_name: Seq<char>,
    /// Container image asked for.
    pub app_image: Seq<char>,
    /// Port asked for.
    pub port: u32,
}

/// A client able to ask the admin endpoint for deployments and removals.
pub trait AppClient {
    /// The deploy requests this client has issued, oldest first.
    spec fn adds(&self) -> Seq<AddRequest>;

    /// The app names this client has asked to remove, oldest first.
    spec fn removes(&self) -> Seq<Seq<char>>;

    /// Whether this client is known never to refuse a request. A client
    /// over a real network is not; the in-memory test client is.
    spec fn infallible(&self) -> bool;

    /// Ask for `app_name` to run `app_image` on `port`. On success the
    /// request enters the deploy history; the removal history never moves;
    /// an infallible client succeeds and stays infallible.
    fn add_app(&mut self, app_name: &str, app_image: &str, port: u32) -> (r: Res)
        ensures
            r is Ok ==> final(self).adds() == old(self).adds().push(
                (AddRequest { app_name: app_name@, app_image: app_image@, port }),
            ),
            r is Err ==> final(self).adds() == old(self).adds(),
            final(self).removes() == old(self).removes(),
            old(self).infallible() ==> r is Ok,
            final(self).infallible() == old(self).infallible(),
    ;

    /// Ask for `app_name` to be removed. On success the request enters the
    /// removal history; the deploy history never moves; an infallible
    /// client succeeds and stays infallible.
    fn rm_app(&mut self, app_name: &str) -> (r: Res)
        ensures
            r is Ok ==> final(self).removes() == old(self).removes().push(app_name@),
            r is Err ==> final(self).removes() == old(self).removes(),
            final(self).adds() == old(self).adds(),
            old(self).infallible() ==> r is Ok,
            final(self).infallible() == old(self).infallible(),
    ;
}

/// State of the production client: where the deploy endpoint lives. This
/// type computes the request URLs; the embedding binary sends the
/// requests.
pub struct ProdAppClient {
    base_deploy_url: String,
}

impl View for ProdAppClient {
    type V = Seq<char>;

    /// The configured base URL of the deploy endpoint.
    closed spec fn view(&self) -> Seq<char> {
        self.base_deploy_url@
    }
}

impl ProdAppClient {
    /// A client addressing the deploy endpoint at this base URL.
    pub fn new(base_deploy_url: &str) -> (c: ProdAppClient)
        ensures
            c@ == base_deploy_url@,
    {
        ProdAppClient { base_deploy_url: base_deploy_url.to_owned() }
    }

    /// The URL a request concerning `app_name` goes to.
    pub fn request_url(&self, app_name: &str) -> (r: String)
        ensures
            r@ == self@ + "?name="@ + app_name@,
    {
        let mut r = self.base_deploy_url.clone();
        r.append("?name=");
        r.append(app_name);
        r
    }
}

/// One deploy request as the test client records it.
#[derive(Debug, PartialEq)]
pub struct AddCall {
    /// Name the app was deployed under.
    pub app_name: String,
    /// Container image asked for.
    pub app_image: String,
    /// Port asked for.
    pub port: u32,
}

/// A client that answers every request with success and records it, for
/// exercising the command helpers without a network.
pub struct TestAppClient {
    /// How many deploy requests were issued.
    pub add_counter: u32,
    /// Every deploy request, oldest first.
    pub add_calls: Vec<AddCall>,
    /// How many removal requests were issued.
    pub rm_counter: u32,
    /// Every removal request's app name, oldest first.
    pub rm_calls: Vec<String>,
}

impl TestAppClient {
    /// A client with empty history.
    pub fn new() -> (c: TestAppClient)
        ensures
            c.adds() == Seq::<AddRequest>::empty(),
            c.removes() == Seq::<Seq<char>>::empty(),
            c.add_counter == 0,
            c.rm_counter == 0,
    {
        let c = TestAppClient { add_counter: 0, add_calls: Vec::new(), rm_counter: 0, rm_calls: Vec::new() };
        proof {
            assert(c.adds() =~= Seq::<AddRequest>::empty());
            assert(c.removes() =~= Seq::<Seq<char>>::empty());
        }
        c
    }
}

impl AppClient for TestAppClient {
    /// The recorded deploy requests, by their contents.
    open spec fn adds(&self) -> Seq<AddRequest> {
        self.add_calls@.map_values(
            |c: AddCall| AddRequest { app_name: c.app_name@, app_image: c.app_image@, port: c.port },
        )
    }

    /// The recorded removal requests' app names.
    open spec fn removes(&self) -> Seq<Seq<char>> {
        self.rm_calls@.map_values(|s: String| s@)
    }

    /// The test client answers every request with success.
    open spec fn infallible(&self) -> bool {
        true
    }

    /// Also counts the request: the deploy counter grows by one, saturating
    /// at its type's end, and the removal counter stands still.
    fn add_app(&mut self, app_name: &str, app_image: &str, port: u32) -> (r: Res)
        ensures
            final(self).add_counter == (if old(self).add_counter < u32::MAX {
                old(self).add_counter + 1
            } else {
                old(self).add_counter as int
            }),
            final(self).rm_counter == old(self).rm_counter,
    {
        if self.add_counter < u32::MAX {
            self.add_counter = self.add_counter + 1;
        }
        self.add_calls.push(
            AddCall { app_name: app_name.to_owned(), app_image: app_image.to_owned(), port },
        );
        proof {
            assert(self.adds() =~= old(self).adds().push(
                AddRequest { app_name: app_name@, app_image: app_image@, port },
            ));
        }
        Ok(())
    }

    /// Also counts the request: the removal counter grows by one,
    /// saturating at its type's end, and the deploy counter stands still.
    fn rm_app(&mut self, app_name: &str) -> (r: Res)
        ensures
            final(self).rm_counter == (if old(self).rm_counter < u32::MAX {
                old(self).rm_counter + 1
            } else {
                old(self).rm_counter as int
            }),
            final(self).add_counter == old(self).add_counter,
    {
        if self.rm_counter < u32::MAX {
            self.rm_counter = self.rm_counter + 1;
        }
        self.rm_calls.push(app_name.to_owned());
        proof {
            assert(self.removes() =~= old(self).removes().push(app_name@));
        }
        Ok(())
    }
}

} // verus!
