use vstd::prelude::*;
use vstd::string::StrSliceExecFns;
use crate::maps::{DisplacementMap, LookupTable, PrepError, prepare, prepare_ok, fixed_of};
use crate::negotiate::{Candidate, Direction, Memo, negotiate, negotiated_caps, next_memo};
use crate::format::{image_kind, pixel_size};
use crate::transform::{
    FrameGeometry,
    TransformError,
    checked_geometry,
    frame_byte,
    geometry_ok,
    remap_frame,
    transform_error,
};

verus! {

/// Paths of the two displacement maps.
pub struct Settings {
    pub mapx: String,
    pub mapy: String,
}

impl Settings {
    pub fn new() -> (s: Settings)
        ensures
            s.mapx@.len() == 0,
            s.mapy@.len() == 0,
    {
        Settings { mapx: String::new(), mapy: String::new() }
    }

    /// Both map paths are configured.
    pub fn has_maps(&self) -> (r: bool)
        ensures
            r == (self.mapx@.len() > 0 && self.mapy@.len() > 0),
    {
        self.mapx.as_str().unicode_len() > 0 && self.mapy.as_str().unicode_len() > 0
    }
}

/// Everything one running stream needs: the prepared table, the committed
/// geometries and the negotiation memo.
pub struct StreamState {
    pub table: LookupTable,
    pub input: Option<FrameGeometry>,
    pub output: Option<FrameGeometry>,
    pub memo: Memo,
}

/// Errors of the element's operations.
#[derive(Clone, Copy, Debug, PartialEq, Eq, Structural)]
pub enum RemapError {
    /// No stream is running, or its geometry or table is not ready.
    NotNegotiated,
    /// A frame's memory is smaller than its geometry needs.
    BufferMapFailed,
    /// Configuration was changed while a stream is running.
    InvalidState,
    /// A frame's rows are shorter than its pixels need.
    InvalidGeometry,
}

pub open spec fn error_of(e: TransformError) -> RemapError {
    match e {
        TransformError::NotNegotiated => RemapError::NotNegotiated,
        TransformError::BufferMapFailed => RemapError::BufferMapFailed,
    }
}

/// The remapping element: configuration plus the state of a running stream.
pub struct Remap {
    pub settings: Settings,
    pub state: Option<StreamState>,
    /// A stream ran and was stopped since the last start.
    pub stopped: bool,
}

impl Remap {
    pub open spec fn wf(&self) -> bool {
        self.state matches Some(s) ==> {
            &&& s.table.wf()
            &&& s.input matches Some(g) ==> geometry_ok(g)
            &&& s.output matches Some(g) ==> geometry_ok(g)
        }
    }

    pub open spec fn active(&self) -> bool {
        self.state is Some
    }

    /// An idle element with no maps configured.
    pub fn new() -> (r: Remap)
        ensures
            r.wf(),
            !r.active(),
            r.settings.mapx@.len() == 0,
            r.settings.mapy@.len() == 0,
    {
        Remap { settings: Settings::new(), state: None, stopped: false }
    }

    /// Configure the path of the horizontal map; refused while a stream runs.
    pub fn set_mapx(&mut self, path: String) -> (r: Result<(), RemapError>)
        ensures
            r is Err <==> old(self).active(),
            r is Err ==> r->Err_0 == RemapError::InvalidState && *final(self) == *old(self),
            r is Ok ==> final(self).settings.mapx@ == path@ && final(self).settings.mapy@
                == old(self).settings.mapy@ && final(self).state == old(self).state
                && final(self).stopped == old(self).stopped,
    {
        if self.state.is_some() {
            return Err(RemapError::InvalidState);
        }
        self.settings.mapx = path;
        Ok(())
    }

    /// Configure the path of the vertical map; refused while a stream runs.
    pub fn set_mapy(&mut self, path: String) -> (r: Result<(), RemapError>)
        ensures
            r is Err <==> old(self).active(),
            r is Err ==> r->Err_0 == RemapError::InvalidState && *final(self) == *old(self),
            r is Ok ==> final(self).settings.mapy@ == path@ && final(self).settings.mapx@
                == old(self).settings.mapx@ && final(self).state == old(self).state
                && final(self).stopped == old(self).stopped,
    {
        if self.state.is_some() {
            return Err(RemapError::InvalidState);
        }
        self.settings.mapy = path;
        Ok(())
    }

    pub fn mapx(&self) -> (r: String)
        ensures
            r@ == self.settings.mapx@,
    {
        self.settings.mapx.clone()
    }

    pub fn mapy(&self) -> (r: String)
        ensures
            r@ == self.settings.mapy@,
    {
        self.settings.mapy.clone()
    }

    pub fn is_active(&self) -> (r: bool)
        ensures
            r == self.active(),
    {
        self.state.is_some()
    }

    /// Begin a stream with the loaded maps (empty where a map is absent). The
    /// new state has the prepared table, no geometry and an unset memo. On an
    /// error the element stays idle.
    pub fn start(&mut self, mapx: &DisplacementMap, mapy: &DisplacementMap) -> (r: Result<
        (),
        PrepError,
    >)
        ensures
            final(self).wf(),
            final(self).settings == old(self).settings,
            r is Ok <==> prepare_ok(mapx, mapy),
            !final(self).stopped,
            r is Err ==> !final(self).active(),
            r is Ok ==> (final(self).state matches Some(s) && s.input is None && s.output is None
                && s.memo == (Memo { sink_width: 0, sink_height: 0 }) && ((mapx.is_empty_map()
                || mapy.is_empty_map()) ==> s.table.is_empty_table()) && (!(mapx.is_empty_map()
                || mapy.is_empty_map()) ==> s.table.width == mapx.width && s.table.height
                == mapx.height && forall|i: int|
                0 <= i < s.table.entries@.len() ==> #[trigger] s.table.entries@[i] == fixed_of(
                    mapx.values@[i] as int,
                    mapy.values@[i] as int,
                ))),
    {
        match prepare(mapx, mapy) {
            Ok(table) => {
                self.state = Some(
                    StreamState { table, input: None, output: None, memo: Memo::new() },
                );
                self.stopped = false;
                Ok(())
            },
            Err(e) => {
                self.state = None;
                self.stopped = false;
                Err(e)
            },
        }
    }

    /// End the stream; later frames and negotiation see no state.
    pub fn stop(&mut self)
        ensures
            final(self).wf(),
            !final(self).active(),
            final(self).stopped,
            final(self).settings == old(self).settings,
    {
        self.state = None;
        self.stopped = true;
    }

    /// Commit the input and output geometry of the running stream. Each must
    /// hold a packed row within its stride.
    pub fn set_caps(&mut self, input: FrameGeometry, output: FrameGeometry) -> (r: Result<
        (),
        RemapError,
    >)
        requires
            old(self).wf(),
        ensures
            final(self).wf(),
            final(self).settings == old(self).settings,
            r is Ok <==> (old(self).active() && geometry_ok(input) && geometry_ok(output)),
            r is Err ==> final(self).state == old(self).state,
            final(self).stopped == old(self).stopped,
            !old(self).active() ==> r == Err::<(), RemapError>(RemapError::NotNegotiated),
            old(self).active() && !(geometry_ok(input) && geometry_ok(output)) ==> r == Err::<
                (),
                RemapError,
            >(RemapError::InvalidGeometry),
            r is Ok ==> (final(self).state matches Some(s) && (old(self).state matches Some(o)
                && s.input == Some(input) && s.output == Some(output) && s.table == o.table
                && s.memo == o.memo)),
    {
        if self.state.is_none() {
            return Err(RemapError::NotNegotiated);
        }
        if !checked_geometry(&input, pixel_size(image_kind(input.format))) || !checked_geometry(
            &output,
            pixel_size(image_kind(output.format)),
        ) {
            return Err(RemapError::InvalidGeometry);
        }
        match &mut self.state {
            Some(s) => {
                s.input = Some(input);
                s.output = Some(output);
                Ok(())
            },
            None => Err(RemapError::NotNegotiated),
        }
    }

    /// Rewrite a caps proposal for `dir` against the running stream's table and
    /// memo. Before any stream has started the proposal comes back unchanged;
    /// after a stream has stopped there is nothing to negotiate against.
    pub fn transform_caps(&mut self, cands: &Vec<Candidate>, dir: Direction) -> (r: Result<
        Vec<Candidate>,
        RemapError,
    >)
        requires
            old(self).wf(),
        ensures
            final(self).wf(),
            final(self).settings == old(self).settings,
            final(self).stopped == old(self).stopped,
            r is Err <==> (!old(self).active() && old(self).stopped),
            r is Err ==> r->Err_0 == RemapError::NotNegotiated && final(self).state == old(
                self,
            ).state,
            (!old(self).active() && !old(self).stopped) ==> (r matches Ok(v) && v@ == cands@
                && final(self).state == old(self).state),
            old(self).state matches Some(o) ==> (final(self).state matches Some(s) && r
                matches Ok(v) && v@ == negotiated_caps(cands@, dir, o.table, o.memo) && s.memo
                == next_memo(cands@, dir, o.memo) && s.table == o.table && s.input == o.input
                && s.output == o.output),
    {
        match &mut self.state {
            Some(s) => Ok(negotiate(cands, dir, &s.table, &mut s.memo)),
            None => {
                if self.stopped {
                    return Err(RemapError::NotNegotiated);
                }
                let mut out: Vec<Candidate> = Vec::with_capacity(cands.len());
                let mut i: usize = 0;
                while i < cands.len()
                    invariant
                        i <= cands@.len(),
                        out@ == cands@.take(i as int),
                    decreases cands@.len() - i,
                {
                    out.push(cands[i]);
                    i = i + 1;
                    proof {
                        assert(out@ =~= cands@.take(i as int));
                    }
                }
                proof {
                    assert(cands@.take(cands@.len() as int) =~= cands@);
                }
                Ok(out)
            },
        }
    }

    /// Resample one frame through the running stream's table and geometry.
    pub fn transform(&self, input: &Vec<u8>, output: &mut Vec<u8>) -> (r: Result<(), RemapError>)
        requires
            self.wf(),
        ensures
            final(output)@.len() == old(output)@.len(),
            r is Err ==> final(output)@ == old(output)@,
            (self.state is None || self.state->Some_0.input is None
                || self.state->Some_0.output is None) ==> r == Err::<(), RemapError>(
                RemapError::NotNegotiated),
            self.state matches Some(s) ==> s.input matches Some(ig) ==> s.output matches Some(og)
                ==> {
                &&& r is Err <==> transform_error(
                    ig,
                    og,
                    s.table,
                    input@.len() as int,
                    old(output)@.len() as int,
                ) is Some
                &&& r matches Err(e) ==> transform_error(
                    ig,
                    og,
                    s.table,
                    input@.len() as int,
                    old(output)@.len() as int,
                ) matches Some(te) && error_of(te) == e
                &&& r is Ok ==> forall|i: int|
                    0 <= i < final(output)@.len() ==> #[trigger] final(output)@[i] == frame_byte(
                        old(output)@,
                        input@,
                        ig,
                        og,
                        s.table,
                        i,
                    )
            },
    {
        let s = match &self.state {
            Some(s) => s,
            None => return Err(RemapError::NotNegotiated),
        };
        let (ig, og) = match (&s.input, &s.output) {
            (Some(ig), Some(og)) => (ig, og),
            _ => return Err(RemapError::NotNegotiated),
        };
        match remap_frame(input, ig, output, og, &s.table) {
            Ok(()) => Ok(()),
            Err(TransformError::NotNegotiated) => Err(RemapError::NotNegotiated),
            Err(TransformError::BufferMapFailed) => Err(RemapError::BufferMapFailed),
        }
    }
}

} // verus!
