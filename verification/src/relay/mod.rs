mod activity_clock;
mod relay_end;

pub use activity_clock::{
    ActivityClock, idle_time, idle_time_at, last_activity, law_idle_deadline,
    law_idle_only_after_quiet_timeout, saturating_millis, time_left,
    time_left_after,
};
pub use relay_end::{
    Direction, PumpError, RELAY_BUFFER_SIZE, RelayCounters, RelayEnd, RelayHalves, RelayProgress,
    RelayStep, add_delivered, after_eof, blames_client, finished,
    law_finished_only_after_both_eofs, progress_after, relay_end_of, relay_step,
};
