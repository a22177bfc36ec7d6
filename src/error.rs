use vstd::prelude::*;

verus! {

/// Coarse classification of a failure, as reported to clients.
#[derive(Debug, Clone, Copy, PartialEq, Eq, Structural)]
pub enum StatusCode {
    Success,
    Unknown,
    Unsupported,
    Unexpected,
    Internal,
    InvalidArguments,
    Cancelled,
    InvalidSyntax,
    PlanQuery,
    EngineExecuteQuery,
    TableAlreadyExists,
    TableNotFound,
    TableColumnNotFound,
    DatabaseNotFound,
    StorageUnavailable,
    RuntimeResourcesExhausted,
    RateLimited,
}

/// Every failure of the service. Where a failure wraps one of another
/// component, `source_status` is that component's own status code and
/// `reason` its message.
#[derive(Debug)]
pub enum Error {
    Join { reason: String },
    ConvertGrpcExpr { reason: String },
    BuildTableMeta { table_name: String, reason: String },
    Table { source_status: StatusCode },
    ConvertRawTableInfo { reason: String },
    Txn { msg: String },
    TableIdChanged { expected_id: u64, found_id: u64 },
    NoEnoughAvailableDatanode { expected: usize, available: usize },
    RequestDatanode { peer: String, source_status: StatusCode },
    SendShutdownSignal,
    ShutdownServer { server: String, source_status: StatusCode },
    EmptyKey,
    EtcdFailed { reason: String },
    ConnectEtcd { reason: String },
    TcpBind { addr: String, reason: String },
    StartGrpc { reason: String },
    StartHttp { source_status: StatusCode },
    ParseAddr { addr: String },
    EmptyTableName,
    InvalidLeaseKey { lease_key: Vec<u8> },
    InvalidStatKey { key: String },
    LeaseKeyFromUtf8,
    LeaseValueFromUtf8,
    StatKeyFromUtf8,
    StatValueFromUtf8,
    SerializeToJson { input: String },
    DeserializeFromJson { input: String },
    ParseNum { err_msg: String },
    InvalidArguments { err_msg: String },
    InvalidTxnResult { err_msg: String },
    InvalidCatalogValue { source_status: StatusCode },
    UnexpectedSequenceValue { seq_name: Vec<u8>, value: Vec<u8> },
    DecodeTableRoute { reason: String },
    TableRouteNotFound { key: String },
    CorruptedTableRoute { key: String, reason: String },
    NextSequence { err_msg: String },
    SequenceOutOfRange { seq_name: Vec<u8>, start: u64, step: u64 },
    NoLeader,
    TableNotFound { name: String },
    MoveValue { key: String },
    UnsupportedSelectorType { selector_type: String },
    Unexpected { violated: String },
    CreateChannel { reason: String },
    BatchGet { reason: String },
    Range { reason: String },
    ResponseHeaderNotFound,
    IsNotLeader { node_addr: String },
    InvalidHttpBody { reason: String },
    ExceededRetryLimit { func_name: String, retry_num: usize },
    Lock { reason: String },
    Unlock { reason: String },
    LockTimeout { lock_name: Vec<u8> },
    LeaseGrant { reason: String },
    LockNotConfig,
    InvalidUtf8Value,
    MissingRequiredParameter { param: String },
    RecoverProcedure { source_status: StatusCode },
    WaitProcedure { source_status: StatusCode },
    SubmitProcedure { source_status: StatusCode },
    SchemaAlreadyExists { schema_name: String },
    TableAlreadyExists { table_name: String },
    PusherNotFound { pusher_id: String },
    PushMessage { err_msg: String },
    MailboxClosed { id: u64 },
    MailboxTimeout { id: u64 },
    MailboxReceiver { id: u64, err_msg: String },
    MissingRequestHeader,
    RegisterProcedureLoader { loader_type: String, source_status: StatusCode },
    RegionFailoverCandidatesNotFound { failed_region: String },
    UnexpectedInstructionReply { mailbox_message: String, reason: String },
    RetryLater { reason: String },
    Combine { err_msg: String },
    TableRouteConversion { source_status: StatusCode },
    ConvertProtoData { source_status: StatusCode },
    ConvertEtcdTxnObject { source_status: StatusCode },
    Other { source_status: StatusCode },
    TableMetadataManager { source_status: StatusCode },
}

/// Failures of the service itself or of a backend it talks to.
pub open spec fn is_internal_failure(e: Error) -> bool {
    e is EtcdFailed
    || e is ConnectEtcd
    || e is TcpBind
    || e is SerializeToJson
    || e is DeserializeFromJson
    || e is DecodeTableRoute
    || e is NoLeader
    || e is CreateChannel
    || e is BatchGet
    || e is Range
    || e is ResponseHeaderNotFound
    || e is IsNotLeader
    || e is InvalidHttpBody
    || e is Lock
    || e is Unlock
    || e is LeaseGrant
    || e is LockNotConfig
    || e is ExceededRetryLimit
    || e is SendShutdownSignal
    || e is ParseAddr
    || e is SchemaAlreadyExists
    || e is TableAlreadyExists
    || e is PusherNotFound
    || e is PushMessage
    || e is MailboxClosed
    || e is MailboxTimeout
    || e is MailboxReceiver
    || e is RetryLater
    || e is StartGrpc
    || e is Combine
    || e is NoEnoughAvailableDatanode
    || e is ConvertGrpcExpr
    || e is Join
    || e is LockTimeout
}

/// Failures caused by a request or configuration that is malformed.
pub open spec fn is_invalid_input(e: Error) -> bool {
    e is EmptyKey
    || e is MissingRequiredParameter
    || e is MissingRequestHeader
    || e is EmptyTableName
    || e is InvalidLeaseKey
    || e is InvalidStatKey
    || e is ParseNum
    || e is UnsupportedSelectorType
    || e is InvalidArguments
}

/// Failures caused by stored data that breaks an invariant, or by a racing writer.
pub open spec fn is_inconsistent_state(e: Error) -> bool {
    e is LeaseKeyFromUtf8
    || e is LeaseValueFromUtf8
    || e is StatKeyFromUtf8
    || e is StatValueFromUtf8
    || e is UnexpectedSequenceValue
    || e is TableRouteNotFound
    || e is CorruptedTableRoute
    || e is NextSequence
    || e is SequenceOutOfRange
    || e is MoveValue
    || e is InvalidTxnResult
    || e is InvalidUtf8Value
    || e is UnexpectedInstructionReply
    || e is Unexpected
    || e is Txn
    || e is TableIdChanged
    || e is ConvertRawTableInfo
    || e is BuildTableMeta
}

/// Failures that carry the status code of the component they wrap.
pub open spec fn is_wrapped_failure(e: Error) -> bool {
    e is Table
    || e is RequestDatanode
    || e is InvalidCatalogValue
    || e is RecoverProcedure
    || e is SubmitProcedure
    || e is WaitProcedure
    || e is ShutdownServer
    || e is StartHttp
    || e is RegisterProcedureLoader
    || e is TableRouteConversion
    || e is ConvertProtoData
    || e is TableMetadataManager
    || e is ConvertEtcdTxnObject
    || e is Other
}

/// The status code of a wrapped failure.
pub open spec fn wrapped_status(e: Error) -> StatusCode {
    match e {
        Error::Table { source_status, .. } => source_status,
        Error::RequestDatanode { source_status, .. } => source_status,
        Error::InvalidCatalogValue { source_status, .. } => source_status,
        Error::RecoverProcedure { source_status, .. } => source_status,
        Error::SubmitProcedure { source_status, .. } => source_status,
        Error::WaitProcedure { source_status, .. } => source_status,
        Error::ShutdownServer { source_status, .. } => source_status,
        Error::StartHttp { source_status, .. } => source_status,
        Error::RegisterProcedureLoader { source_status, .. } => source_status,
        Error::TableRouteConversion { source_status, .. } => source_status,
        Error::ConvertProtoData { source_status, .. } => source_status,
        Error::TableMetadataManager { source_status, .. } => source_status,
        Error::ConvertEtcdTxnObject { source_status, .. } => source_status,
        Error::Other { source_status, .. } => source_status,
        _ => StatusCode::Unknown,
    }
}

/// The status code that each failure maps to.
pub open spec fn status_of(e: Error) -> StatusCode {
    if is_internal_failure(e) {
        StatusCode::Internal
    } else if is_invalid_input(e) {
        StatusCode::InvalidArguments
    } else if is_inconsistent_state(e) {
        StatusCode::Unexpected
    } else if e is TableNotFound {
        StatusCode::TableNotFound
    } else if e is RegionFailoverCandidatesNotFound {
        StatusCode::RuntimeResourcesExhausted
    } else {
        wrapped_status(e)
    }
}

impl Error {
    /// The status code under which this failure is reported.
    pub fn status_code(&self) -> (r: StatusCode)
        ensures
            r == status_of(*self),
    {
        match self {
            Error::EtcdFailed { .. }
            | Error::ConnectEtcd { .. }
            | Error::TcpBind { .. }
            | Error::SerializeToJson { .. }
            | Error::DeserializeFromJson { .. }
            | Error::DecodeTableRoute { .. }
            | Error::NoLeader
            | Error::CreateChannel { .. }
            | Error::BatchGet { .. }
            | Error::Range { .. }
            | Error::ResponseHeaderNotFound
            | Error::IsNotLeader { .. }
            | Error::InvalidHttpBody { .. }
            | Error::Lock { .. }
            | Error::Unlock { .. }
            | Error::LeaseGrant { .. }
            | Error::LockNotConfig
            | Error::ExceededRetryLimit { .. }
            | Error::SendShutdownSignal
            | Error::ParseAddr { .. }
            | Error::SchemaAlreadyExists { .. }
            | Error::TableAlreadyExists { .. }
            | Error::PusherNotFound { .. }
            | Error::PushMessage { .. }
            | Error::MailboxClosed { .. }
            | Error::MailboxTimeout { .. }
            | Error::MailboxReceiver { .. }
            | Error::RetryLater { .. }
            | Error::StartGrpc { .. }
            | Error::Combine { .. }
            | Error::NoEnoughAvailableDatanode { .. }
            | Error::ConvertGrpcExpr { .. }
            | Error::Join { .. }
            | Error::LockTimeout { .. } => StatusCode::Internal,
            Error::EmptyKey
            | Error::MissingRequiredParameter { .. }
            | Error::MissingRequestHeader
            | Error::EmptyTableName
            | Error::InvalidLeaseKey { .. }
            | Error::InvalidStatKey { .. }
            | Error::ParseNum { .. }
            | Error::UnsupportedSelectorType { .. }
            | Error::InvalidArguments { .. } => StatusCode::InvalidArguments,
            Error::LeaseKeyFromUtf8
            | Error::LeaseValueFromUtf8
            | Error::StatKeyFromUtf8
            | Error::StatValueFromUtf8
            | Error::UnexpectedSequenceValue { .. }
            | Error::TableRouteNotFound { .. }
            | Error::CorruptedTableRoute { .. }
            | Error::NextSequence { .. }
            | Error::SequenceOutOfRange { .. }
            | Error::MoveValue { .. }
            | Error::InvalidTxnResult { .. }
            | Error::InvalidUtf8Value
            | Error::UnexpectedInstructionReply { .. }
            | Error::Unexpected { .. }
            | Error::Txn { .. }
            | Error::TableIdChanged { .. }
            | Error::ConvertRawTableInfo { .. }
            | Error::BuildTableMeta { .. } => StatusCode::Unexpected,
            Error::TableNotFound { .. } => StatusCode::TableNotFound,
            Error::RegionFailoverCandidatesNotFound { .. } => StatusCode::RuntimeResourcesExhausted,
            Error::Table { source_status, .. } => *source_status,
            Error::RequestDatanode { source_status, .. } => *source_status,
            Error::InvalidCatalogValue { source_status, .. } => *source_status,
            Error::RecoverProcedure { source_status, .. } => *source_status,
            Error::SubmitProcedure { source_status, .. } => *source_status,
            Error::WaitProcedure { source_status, .. } => *source_status,
            Error::ShutdownServer { source_status, .. } => *source_status,
            Error::StartHttp { source_status, .. } => *source_status,
            Error::RegisterProcedureLoader { source_status, .. } => *source_status,
            Error::TableRouteConversion { source_status, .. } => *source_status,
            Error::ConvertProtoData { source_status, .. } => *source_status,
            Error::TableMetadataManager { source_status, .. } => *source_status,
            Error::ConvertEtcdTxnObject { source_status, .. } => *source_status,
            Error::Other { source_status, .. } => *source_status,
        }
    }
}

} // verus!
