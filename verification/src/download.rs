//! The decisions of the asynchronous download worker.
//!
//! One worker runs per map instance, bound to one provider: it consumes
//! tile requests in FIFO order, fetches and decodes each tile, and pushes
//! completed tiles back toward the cache. The network and decoder calls
//! themselves live outside this crate; every decision the worker takes
//! between those calls is a verified function here, so the loop around
//! them contains no logic of its own.

use vstd::prelude::*;

use crate::mercator::TileId;
use crate::providers::Provider;
use crate::tiles::Tile;

verus! {

/// Why one tile fetch produced no tile. Each failure is recovered locally
/// by the worker: logged, the request dropped, no retry scheduled.
#[derive(Debug, Clone, Copy, PartialEq, Eq, Structural)]
pub enum FetchError {
    /// HTTP-level or connection failure.
    Transport,
    /// A response arrived with a status code outside the 2xx range.
    Status(u16),
    /// The body of a successful response was not a decodable image.
    Decode,
}

/// What the HTTP layer hands back for one GET request.
pub enum FetchOutcome {
    /// The request failed before any response arrived.
    Transport,
    /// A response, with its status code and raw body bytes.
    Response(u16, Vec<u8>),
}

/// A status code is a success exactly when it lies in the 2xx range.
pub open spec fn spec_is_success_status(status: u16) -> bool {
    200 <= status < 300
}

/// Whether a status code counts as a successful response.
pub fn is_success_status(status: u16) -> (r: bool)
    ensures
        r == spec_is_success_status(status),
{
    200 <= status && status < 300
}

/// Decide what one HTTP outcome means: a transport failure and a non-2xx
/// status are fetch failures; the body of a 2xx response goes on to the
/// image decoder.
pub fn classify_response(outcome: FetchOutcome) -> (r: Result<Vec<u8>, FetchError>)
    ensures
        outcome is Transport ==> r == Err::<Vec<u8>, FetchError>(FetchError::Transport),
        outcome matches FetchOutcome::Response(status, body) ==> {
            &&& spec_is_success_status(status) ==> (r matches Ok(b) && b == body)
            &&& !spec_is_success_status(status) ==> r == Err::<Vec<u8>, FetchError>(
                FetchError::Status(status),
            )
        },
{
    match outcome {
        FetchOutcome::Transport => Err(FetchError::Transport),
        FetchOutcome::Response(status, body) => {
            if is_success_status(status) {
                Ok(body)
            } else {
                Err(FetchError::Status(status))
            }
        },
    }
}

/// Decide what the image decoder's verdict means: an undecodable body is
/// the decode failure class, distinct from the transport and status ones.
pub fn classify_decode(decoded: Option<Tile>) -> (r: Result<Tile, FetchError>)
    ensures
        decoded matches Some(t) ==> (r matches Ok(t2) && t2 == t),
        decoded is None ==> r == Err::<Tile, FetchError>(FetchError::Decode),
{
    match decoded {
        Some(t) => Ok(t),
        None => Err(FetchError::Decode),
    }
}

/// Why a worker stopped. Either closure is fatal and non-recoverable for
/// that map instance: no further tiles are ever fetched for it, though the
/// tiles already cached continue to render.
#[derive(Debug, Clone, Copy, PartialEq, Eq, Structural)]
pub enum PipelineEnd {
    /// The request channel closed: the owning cache was dropped.
    RequestsClosed,
    /// The response channel closed: nobody is reading completed tiles.
    ResponsesClosed,
}

/// The per-instance state of the download worker: bound to one provider at
/// construction, running until a channel closes.
pub struct DownloadPipeline {
    provider: Provider,
    ended: Option<PipelineEnd>,
}

impl DownloadPipeline {
    /// The provider this worker fetches from.
    pub closed spec fn spec_provider(self) -> Provider {
        self.provider
    }

    /// Why the worker stopped, while it has.
    pub closed spec fn spec_ended(self) -> Option<PipelineEnd> {
        self.ended
    }

    /// A fresh worker state bound to `provider`.
    pub fn new(provider: Provider) -> (r: DownloadPipeline)
        ensures
            r.spec_provider() == provider,
            r.spec_ended() is None,
    {
        DownloadPipeline { provider, ended: None }
    }

    /// React to the next event on the request channel: a request becomes a
    /// fetch of that tile's URL from the bound provider, and closure of the
    /// channel ends the worker for good.
    pub fn next_request(&mut self, request: Option<TileId>) -> (r: Option<(TileId, String)>)
        requires
            old(self).spec_ended() is None,
        ensures
            final(self).spec_provider() == old(self).spec_provider(),
            request matches Some(id) ==> {
                &&& final(self).spec_ended() is None
                &&& r matches Some(f) && f.0 == id && f.1@ == old(self).spec_provider().spec_tile_url(
                    id,
                )
            },
            request is None ==> final(self).spec_ended() == Some(PipelineEnd::RequestsClosed)
                && r is None,
    {
        match request {
            Some(id) => {
                let url = self.provider.tile_url(id);
                Some((id, url))
            },
            None => {
                self.ended = Some(PipelineEnd::RequestsClosed);
                None
            },
        }
    }

    /// React to a failed push of a completed tile into the response
    /// channel: a full channel only drops that one tile (backpressure
    /// release, not an error), while a closed channel ends the worker.
    pub fn response_push_failed(&mut self, closed: bool)
        requires
            old(self).spec_ended() is None,
        ensures
            final(self).spec_provider() == old(self).spec_provider(),
            closed ==> final(self).spec_ended() == Some(PipelineEnd::ResponsesClosed),
            !closed ==> final(self).spec_ended() is None,
    {
        if closed {
            self.ended = Some(PipelineEnd::ResponsesClosed);
        }
    }

    /// Why the worker stopped, or `None` while it runs.
    pub fn ended(&self) -> (r: Option<PipelineEnd>)
        ensures
            r == self.spec_ended(),
    {
        self.ended
    }

    /// The provider this worker fetches from.
    pub fn provider(&self) -> (r: Provider)
        ensures
            r == self.spec_provider(),
    {
        self.provider
    }
}

} // verus!
