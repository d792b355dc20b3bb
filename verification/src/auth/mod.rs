mod user_credentials;
mod user_store;

pub use user_credentials::{UserCredentials, credentials_debug_text};
pub use user_store::{
    CredentialError, MAX_CREDENTIAL_LEN, StoredView, UserStore, block_of, candidate_block,
    carriable, credential_error_text, law_store_accepts_configured_pairs,
    law_store_answers_with_own_username,
    law_user_list_errors_hold_no_password, names_only_users, quoted_list,
    store_debug_text, first_user_problem, user_list_problem, user_problem, utf8,
    zero_block,
};
