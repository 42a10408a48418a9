use vstd::prelude::*;

verus! {

/// An error as the callers see it: a numeric code and a message.
pub type ResponseError = (i32, String);

/// A column that a category of source file must have.
#[derive(Clone, Copy, Debug, PartialEq, Eq, Structural)]
pub enum Field {
    Commission,
    Date,
    Provider,
    ProviderId,
    Mode,
    Status,
    Amount,
    CommissionSys,
    CommissionBank,
    CommissionEops,
    CommissionPartner,
    TranType,
    CommissionPayment,
    Vendor,
    PaymentSystem,
}

/// Errors of the report engine; each has a numeric code and a message.
#[derive(Clone, Copy, Debug, PartialEq, Eq, Structural)]
pub enum ReportError {
    /// The header of a source file lacks a column its category needs.
    MissingRequiredColumn(Field),
    /// A field of a row is missing or malformed; `row` counts within the chunk.
    UnparseableField { row: usize, field: Field },
    /// A file kind that maps to no category.
    UnknownCategory,
    /// A filter whose file kind was never set.
    FileKindMissing,
    /// No report is cached under the fingerprint asked for.
    ReportNotFound,
    /// As many generations run as are allowed.
    AdmissionLimitExceeded,
    /// A report with this fingerprint is being generated already.
    DuplicateFingerprintInFlight,
    /// A chunk was sent for a category the report has not started.
    CategoryNotStarted,
}

pub open spec fn field_code(f: Field) -> i32 {
    match f {
        Field::Commission => 423134,
        Field::Date => 8423141,
        Field::Provider => 423142,
        Field::ProviderId => 423143,
        Field::Mode => 423144,
        Field::Status => 423145,
        Field::Amount => 423146,
        Field::CommissionSys => 423135,
        Field::CommissionBank => 423136,
        Field::CommissionEops => 423138,
        Field::CommissionPartner => 423139,
        Field::TranType => 423147,
        Field::CommissionPayment => 423137,
        Field::Vendor => 423149,
        Field::PaymentSystem => 423148,
    }
}

pub open spec fn error_code(e: ReportError) -> i32 {
    match e {
        ReportError::MissingRequiredColumn(f) => field_code(f),
        ReportError::UnparseableField { .. } => 4132426,
        ReportError::UnknownCategory => 543544,
        ReportError::FileKindMissing => 5436574,
        ReportError::ReportNotFound => 1334300,
        ReportError::AdmissionLimitExceeded => 4325437,
        ReportError::DuplicateFingerprintInFlight => 4324324,
        ReportError::CategoryNotStarted => 4132425,
    }
}

impl Field {
    pub fn code(&self) -> (r: i32)
        ensures
            r == field_code(*self),
    {
        match self {
            Field::Commission => 423134,
            Field::Date => 8423141,
            Field::Provider => 423142,
            Field::ProviderId => 423143,
            Field::Mode => 423144,
            Field::Status => 423145,
            Field::Amount => 423146,
            Field::CommissionSys => 423135,
            Field::CommissionBank => 423136,
            Field::CommissionEops => 423138,
            Field::CommissionPartner => 423139,
            Field::TranType => 423147,
            Field::CommissionPayment => 423137,
            Field::Vendor => 423149,
            Field::PaymentSystem => 423148,
        }
    }

    /// The column's name as the engine refers to it.
    pub fn name(&self) -> (r: &'static str)
        ensures
            r@ == field_name(*self),
    {
        match self {
            Field::Commission => "commission",
            Field::Date => "date",
            Field::Provider => "provider",
            Field::ProviderId => "provider_id",
            Field::Mode => "mode",
            Field::Status => "status",
            Field::Amount => "amount",
            Field::CommissionSys => "commission_sys",
            Field::CommissionBank => "commission_bank",
            Field::CommissionEops => "commission_eops",
            Field::CommissionPartner => "commission_partner",
            Field::TranType => "tran_type",
            Field::CommissionPayment => "commission_payment",
            Field::Vendor => "vendor",
            Field::PaymentSystem => "payment_system",
        }
    }

    /// The message for a header that lacks this column.
    pub fn missing_message(&self) -> (r: &'static str)
        ensures
            r@ == missing_message(*self),
    {
        match self {
            Field::Commission => "index_commission field is None",
            Field::Date => "index_date field is None",
            Field::Provider => "index_provider field is None",
            Field::ProviderId => "index_provider_id field is None",
            Field::Mode => "index_mode field is None",
            Field::Status => "index_status field is None",
            Field::Amount => "index_amount field is None",
            Field::CommissionSys => "index_commission_sys field is None",
            Field::CommissionBank => "index_commission_bank field is None",
            Field::CommissionEops => "index_commission_eops field is None",
            Field::CommissionPartner => "index_commission_partner field is None",
            Field::TranType => "index_tran_type field is None",
            Field::CommissionPayment => "index_commission_payment field is None",
            Field::Vendor => "index_vendor field is None",
            Field::PaymentSystem => "index_payment_system field is None",
        }
    }
}

pub open spec fn field_name(f: Field) -> Seq<char> {
    match f {
        Field::Commission => "commission"@,
        Field::Date => "date"@,
        Field::Provider => "provider"@,
        Field::ProviderId => "provider_id"@,
        Field::Mode => "mode"@,
        Field::Status => "status"@,
        Field::Amount => "amount"@,
        Field::CommissionSys => "commission_sys"@,
        Field::CommissionBank => "commission_bank"@,
        Field::CommissionEops => "commission_eops"@,
        Field::CommissionPartner => "commission_partner"@,
        Field::TranType => "tran_type"@,
        Field::CommissionPayment => "commission_payment"@,
        Field::Vendor => "vendor"@,
        Field::PaymentSystem => "payment_system"@,
    }
}

pub open spec fn missing_message(f: Field) -> Seq<char> {
    match f {
        Field::Commission => "index_commission field is None"@,
        Field::Date => "index_date field is None"@,
        Field::Provider => "index_provider field is None"@,
        Field::ProviderId => "index_provider_id field is None"@,
        Field::Mode => "index_mode field is None"@,
        Field::Status => "index_status field is None"@,
        Field::Amount => "index_amount field is None"@,
        Field::CommissionSys => "index_commission_sys field is None"@,
        Field::CommissionBank => "index_commission_bank field is None"@,
        Field::CommissionEops => "index_commission_eops field is None"@,
        Field::CommissionPartner => "index_commission_partner field is None"@,
        Field::TranType => "index_tran_type field is None"@,
        Field::CommissionPayment => "index_commission_payment field is None"@,
        Field::Vendor => "index_vendor field is None"@,
        Field::PaymentSystem => "index_payment_system field is None"@,
    }
}

/// The message that goes with an error.
pub open spec fn error_message(e: ReportError) -> Seq<char> {
    match e {
        ReportError::MissingRequiredColumn(f) => missing_message(f),
        ReportError::UnparseableField { .. } => "Не удалось разобрать поле части отчета"@,
        ReportError::UnknownCategory => "Не известный тип переданного отчета"@,
        ReportError::FileKindMissing => "Не удалось получить тип файла"@,
        ReportError::ReportNotFound => "Не удалось найти скалькулированных данных для отчета"@,
        ReportError::AdmissionLimitExceeded => "Лимит одновременных генераций был превышен"@,
        ReportError::DuplicateFingerprintInFlight => "Невозможно сгенерировать отчет, так как данный отчет уже находится в режиме генерации"@,
        ReportError::CategoryNotStarted => "Не удалось получить часть отчета"@,
    }
}

impl ReportError {
    pub fn code(&self) -> (r: i32)
        ensures
            r == error_code(*self),
    {
        match self {
            ReportError::MissingRequiredColumn(f) => f.code(),
            ReportError::UnparseableField { .. } => 4132426,
            ReportError::UnknownCategory => 543544,
            ReportError::FileKindMissing => 5436574,
            ReportError::ReportNotFound => 1334300,
            ReportError::AdmissionLimitExceeded => 4325437,
            ReportError::DuplicateFingerprintInFlight => 4324324,
            ReportError::CategoryNotStarted => 4132425,
        }
    }

    /// A human-readable message for the caller.
    pub fn message(&self) -> (r: &'static str)
        ensures
            r@ == error_message(*self),
    {
        match self {
            ReportError::MissingRequiredColumn(f) => f.missing_message(),
            ReportError::UnparseableField { .. } => "Не удалось разобрать поле части отчета",
            ReportError::UnknownCategory => "Не известный тип переданного отчета",
            ReportError::FileKindMissing => "Не удалось получить тип файла",
            ReportError::ReportNotFound => "Не удалось найти скалькулированных данных для отчета",
            ReportError::AdmissionLimitExceeded => "Лимит одновременных генераций был превышен",
            ReportError::DuplicateFingerprintInFlight => "Невозможно сгенерировать отчет, так как данный отчет уже находится в режиме генерации",
            ReportError::CategoryNotStarted => "Не удалось получить часть отчета",
        }
    }
}

impl ReportError {
    /// The error as a code and a message.
    pub fn to_response(&self) -> (r: ResponseError)
        ensures
            r.0 == error_code(*self),
            r.1@ == error_message(*self),
    {
        (self.code(), crate::text::text_of(self.message()))
    }
}

} // verus!
