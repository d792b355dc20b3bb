use vstd::prelude::*;

verus! {

/// Copy buffer per direction.
pub const RELAY_BUFFER_SIZE: usize = 16384;

/// Bytes delivered by each direction; updated after every write, so the numbers stay correct
/// even if the relay is dropped half-way (shutdown).
#[derive(Debug, Clone, Copy, Default, PartialEq, Eq, Structural)]
pub struct RelayCounters {
    /// Written to the target: what the client uploaded (`bytes_in` in the logs).
    pub client_to_target: u64,
    /// Written to the client: what the client downloaded (`bytes_out` in the logs).
    pub target_to_client: u64,
}

/// How a relay ended. On every variant both streams are finished with: the caller drops them.
#[derive(Debug)]
pub enum RelayEnd {
    /// Both directions reached EOF; each half-close was forwarded to the other side.
    Completed,
    /// No byte moved in either direction for the idle timeout.
    IdleTimeout,
    /// Reading from or writing to the client failed.
    ClientError(std::io::Error),
    /// Reading from or writing to the target failed.
    TargetError(std::io::Error),
}

/// The four halves of a client/target stream pair.
pub struct RelayHalves<ClientRead, ClientWrite, TargetRead, TargetWrite> {
    pub client_reader: ClientRead,
    pub client_writer: ClientWrite,
    pub target_reader: TargetRead,
    pub target_writer: TargetWrite,
}

/// Why one copy direction stopped before EOF.
#[derive(Debug)]
pub enum PumpError {
    Idle,
    Read(std::io::Error),
    Write(std::io::Error),
}

/// The direction data flows in.
#[derive(Debug, Clone, Copy, PartialEq, Eq, Structural)]
pub enum Direction {
    /// Client to target: reads from the client, writes to the target.
    Upload,
    /// Target to client: reads from the target, writes to the client.
    Download,
}

/// Which side a failure of `direction` is on: an upload reads the client and writes the
/// target, a download the other way round.
pub open spec fn blames_client(direction: Direction, error: &PumpError) -> bool {
    match (direction, error) {
        (Direction::Upload, PumpError::Read(_)) => true,
        (Direction::Download, PumpError::Write(_)) => true,
        _ => false,
    }
}

/// How the relay ends when `direction` stops with `error`.
pub fn relay_end_of(direction: Direction, error: PumpError) -> (r: RelayEnd)
    ensures
        (error is Idle) <==> (r is IdleTimeout),
        !(error is Idle) ==> (blames_client(direction, &error) <==> r is ClientError),
        !(error is Idle) ==> (!blames_client(direction, &error) <==> r is TargetError),
{
    match (direction, error) {
        (_, PumpError::Idle) => RelayEnd::IdleTimeout,
        (Direction::Upload, PumpError::Read(e)) => RelayEnd::ClientError(e),
        (Direction::Upload, PumpError::Write(e)) => RelayEnd::TargetError(e),
        (Direction::Download, PumpError::Read(e)) => RelayEnd::TargetError(e),
        (Direction::Download, PumpError::Write(e)) => RelayEnd::ClientError(e),
    }
}

/// Which directions of a relay have reached EOF (and forwarded the half-close).
#[derive(Debug, Clone, Copy, PartialEq, Eq, Structural)]
pub struct RelayProgress {
    pub upload_done: bool,
    pub download_done: bool,
}

/// Both directions have reached EOF.
pub open spec fn finished(progress: RelayProgress) -> bool {
    progress.upload_done && progress.download_done
}

/// The progress once `direction` has reached EOF.
pub open spec fn after_eof(progress: RelayProgress, direction: Direction) -> RelayProgress {
    match direction {
        Direction::Upload => RelayProgress { upload_done: true, ..progress },
        Direction::Download => RelayProgress { download_done: true, ..progress },
    }
}

/// The progress of a relay whose directions reached EOF in the order of `eofs`.
pub open spec fn progress_after(eofs: Seq<Direction>) -> RelayProgress
    decreases eofs.len(),
{
    if eofs.len() == 0 {
        RelayProgress { upload_done: false, download_done: false }
    } else {
        after_eof(progress_after(eofs.drop_last()), eofs.last())
    }
}

/// A relay is finished exactly once both directions have reached EOF, in whatever order and
/// however often either is reported.
pub proof fn law_finished_only_after_both_eofs(eofs: Seq<Direction>)
    ensures
        finished(progress_after(eofs)) <==> (eofs.contains(Direction::Upload) && eofs.contains(
            Direction::Download,
        )),
        progress_after(eofs).upload_done <==> eofs.contains(Direction::Upload),
        progress_after(eofs).download_done <==> eofs.contains(Direction::Download),
    decreases eofs.len(),
{
    if eofs.len() > 0 {
        let rest = eofs.drop_last();
        law_finished_only_after_both_eofs(rest);
        assert forall|d: Direction| eofs.contains(d) <==> (rest.contains(d) || eofs.last() == d) by {
            if eofs.contains(d) {
                let i = choose|i: int| 0 <= i < eofs.len() && eofs[i] == d;
                if i < eofs.len() - 1 {
                    assert(rest[i] == d);
                }
            }
            if rest.contains(d) {
                let i = choose|i: int| 0 <= i < rest.len() && rest[i] == d;
                assert(eofs[i] == d);
            }
            if eofs.last() == d {
                assert(eofs[eofs.len() - 1] == d);
            }
        }
    }
}

/// What the relay does after one direction stopped: go on with the other, or end.
#[derive(Debug)]
pub enum RelayStep {
    Continue(RelayProgress),
    End(RelayEnd),
}

/// The relay's decision when `direction` stops with `result`: EOF marks the direction done
/// and the relay completes once both are; a failure or the idle timeout ends it at once.
pub fn relay_step(progress: RelayProgress, direction: Direction, result: Result<(), PumpError>) -> (r:
    RelayStep)
    ensures
        match result {
            Ok(()) => if finished(after_eof(progress, direction)) {
                r matches RelayStep::End(RelayEnd::Completed)
            } else {
                r == RelayStep::Continue(after_eof(progress, direction))
            },
            Err(error) => r matches RelayStep::End(end) && ((error is Idle) <==> (end is IdleTimeout))
                && (!(error is Idle) ==> (blames_client(direction, &error) <==> end is ClientError))
                && (!(error is Idle) ==> (!blames_client(direction, &error) <==> end is TargetError)),
        },
{
    match result {
        Ok(()) => {
            let next = match direction {
                Direction::Upload => RelayProgress { upload_done: true, download_done: progress.download_done },
                Direction::Download => RelayProgress { upload_done: progress.upload_done, download_done: true },
            };
            if next.upload_done && next.download_done {
                RelayStep::End(RelayEnd::Completed)
            } else {
                RelayStep::Continue(next)
            }
        },
        Err(error) => RelayStep::End(relay_end_of(direction, error)),
    }
}

/// The count of delivered bytes after `written` more (saturating).
pub fn add_delivered(delivered: u64, written: usize) -> (r: u64)
    ensures
        r == if delivered + written <= u64::MAX {
            (delivered + written) as int
        } else {
            u64::MAX as int
        },
{
    let written = written as u64;
    delivered.saturating_add(written)
}

} // verus!
