use vstd::prelude::*;
use crate::error::ReportError;
use crate::text::{lower_of, text_eq, to_lower};

verus! {

/// The kind of report a request asks for.
#[derive(Clone, Copy, Debug, PartialEq, Eq, Structural)]
pub enum ReportType {
    Agent,
    TaxiCompany,
    Merchant,
    Unknown,
}

/// The category of a source file, and so of its aggregate.
#[derive(Clone, Copy, Debug, PartialEq, Eq, Structural)]
pub enum ReportItemType {
    Remittance,
    Payments,
    Unknown,
    Empty,
    Null,
}

/// Transaction status a filter may ask for.
#[derive(Clone, Copy, Debug, PartialEq, Eq, Structural)]
pub enum Status {
    Completed,
    Mistake,
    Created,
    Cancel,
    Null,
    Unknown,
}

/// A request-scoped row filter over one source file, with the category the
/// file was resolved to.
#[derive(Clone, Debug)]
pub struct Filter {
    /// The source file's id.
    pub id: u32,
    pub status: Option<Status>,
    pub mode: Option<String>,
    pub payments_system: Option<Vec<String>>,
    pub type_report_that_generated: Option<ReportItemType>,
    pub type_of_report_we_depend: Option<String>,
    pub path_to_file: Option<String>,
}

/// The category a file kind resolves to: "pay" and "pay_f" are payments,
/// "c2card" and "c2cCOMANYNAME" (also in lowercase) remittances; any other
/// kind resolves to none.
pub open spec fn category_of_kind(kind: Seq<char>) -> Option<ReportItemType> {
    if kind == "pay"@ || kind == "pay_f"@ {
        Some(ReportItemType::Payments)
    } else if kind == "c2card"@ || kind == "c2cCOMANYNAME"@ || kind == "c2ccomanyname"@ {
        Some(ReportItemType::Remittance)
    } else {
        None
    }
}

impl ReportType {
    pub fn report_type_to_string(&self) -> (r: &'static str)
        ensures
            *self == ReportType::Agent ==> r@ == "agent"@,
            *self == ReportType::TaxiCompany ==> r@ == "taxi_compony"@,
            *self == ReportType::Merchant ==> r@ == "merchant"@,
            *self == ReportType::Unknown ==> r@ == "unknown"@,
    {
        match self {
            ReportType::Agent => "agent",
            ReportType::TaxiCompany => "taxi_compony",
            ReportType::Merchant => "merchant",
            ReportType::Unknown => "unknown",
        }
    }
}

/// The status a filter asks for, as written in the source files.
pub fn get_status(filter: &Filter) -> (r: Option<&'static str>)
    ensures
        filter.status is None <==> r is None,
        filter.status == Some(Status::Completed) ==> (r matches Some(t) && t@ == "Завершена"@),
        filter.status == Some(Status::Mistake) ==> (r matches Some(t) && t@ == "Ошибка"@),
        filter.status == Some(Status::Created) ==> (r matches Some(t) && t@ == "Создана"@),
        filter.status == Some(Status::Cancel) ==> (r matches Some(t) && t@ == "Отмена"@),
        filter.status == Some(Status::Null) ==> (r matches Some(t) && t@ == "Null"@),
        filter.status == Some(Status::Unknown) ==> (r matches Some(t) && t@ == "Unknown"@),
{
    match filter.status {
        None => None,
        Some(Status::Completed) => Some("Завершена"),
        Some(Status::Mistake) => Some("Ошибка"),
        Some(Status::Created) => Some("Создана"),
        Some(Status::Cancel) => Some("Отмена"),
        Some(Status::Null) => Some("Null"),
        Some(Status::Unknown) => Some("Unknown"),
    }
}

impl Filter {
    /// Lowercases every payment system the filter names.
    pub fn set_to_lowercase_payments_system_field(&mut self)
        ensures
            old(self).payments_system is None ==> final(self).payments_system is None,
            old(self).payments_system matches Some(ps) ==> (final(self).payments_system matches Some(nps)
                && nps.deep_view() == ps.deep_view().map_values(|s: Seq<char>| lower_of(s))),
            final(self).id == old(self).id,
            final(self).status == old(self).status,
            final(self).mode == old(self).mode,
            final(self).type_report_that_generated == old(self).type_report_that_generated,
            final(self).type_of_report_we_depend == old(self).type_of_report_we_depend,
            final(self).path_to_file == old(self).path_to_file,
    {
        match &self.payments_system {
            None => {},
            Some(systems) => {
                let mut lowered: Vec<String> = Vec::new();
                let mut i: usize = 0;
                while i < systems.len()
                    invariant
                        i <= systems.len(),
                        lowered.len() == i,
                        forall|k: int| 0 <= k < i ==> #[trigger] lowered@[k]@ == lower_of(systems@[k]@),
                    decreases systems.len() - i,
                {
                    lowered.push(to_lower(systems[i].as_str()));
                    i = i + 1;
                }
                assert(lowered.deep_view() =~= systems.deep_view().map_values(|s: Seq<char>| lower_of(s)));
                self.payments_system = Some(lowered);
            },
        }
    }

    pub fn set_type_of_report_we_depend(&mut self, type_of_report_we_depend: String)
        ensures
            final(self).type_of_report_we_depend == Some(type_of_report_we_depend),
            final(self).id == old(self).id,
            final(self).status == old(self).status,
            final(self).mode == old(self).mode,
            final(self).payments_system == old(self).payments_system,
            final(self).type_report_that_generated == old(self).type_report_that_generated,
            final(self).path_to_file == old(self).path_to_file,
    {
        self.type_of_report_we_depend = Some(type_of_report_we_depend);
    }

    pub fn set_path_to_file(&mut self, path_to_file: String)
        ensures
            final(self).path_to_file == Some(path_to_file),
            final(self).id == old(self).id,
            final(self).status == old(self).status,
            final(self).mode == old(self).mode,
            final(self).payments_system == old(self).payments_system,
            final(self).type_report_that_generated == old(self).type_report_that_generated,
            final(self).type_of_report_we_depend == old(self).type_of_report_we_depend,
    {
        self.path_to_file = Some(path_to_file);
    }

    /// Resolves the filter's category from its file kind; fails, changing
    /// nothing, when the kind is missing (`FileKindMissing`) or unknown
    /// (`UnknownCategory`).
    pub fn set_type_report_that_generated(&mut self) -> (r: Result<(), ReportError>)
        ensures
            match old(self).type_of_report_we_depend {
                Some(k) => match category_of_kind(k@) {
                    Some(c) => r is Ok && final(self).type_report_that_generated == Some(c),
                    None => r == Err::<(), ReportError>(ReportError::UnknownCategory) && *final(self) == *old(self),
                },
                None => r == Err::<(), ReportError>(ReportError::FileKindMissing) && *final(self) == *old(self),
            },
            final(self).id == old(self).id,
            final(self).status == old(self).status,
            final(self).mode == old(self).mode,
            final(self).payments_system == old(self).payments_system,
            final(self).type_of_report_we_depend == old(self).type_of_report_we_depend,
            final(self).path_to_file == old(self).path_to_file,
    {
        match &self.type_of_report_we_depend {
            None => Err(ReportError::FileKindMissing),
            Some(kind) => {
                let k = kind.as_str();
                if text_eq(k, "pay") || text_eq(k, "pay_f") {
                    self.type_report_that_generated = Some(ReportItemType::Payments);
                    Ok(())
                } else if text_eq(k, "c2card") || text_eq(k, "c2cCOMANYNAME") || text_eq(k, "c2ccomanyname") {
                    self.type_report_that_generated = Some(ReportItemType::Remittance);
                    Ok(())
                } else {
                    Err(ReportError::UnknownCategory)
                }
            },
        }
    }

    /// The path of the filter's source file; an error when it is not set.
    pub fn get_path_to_file(&self) -> (r: Result<String, (i32, String)>)
        ensures
            self.path_to_file matches Some(p) ==> r == Ok::<String, (i32, String)>(p),
            self.path_to_file is None ==> (r matches Err(e) && e.0 == 4324223 && e.1@ == "Путь до файла отсуствует"@),
    {
        match &self.path_to_file {
            Some(p) => Ok(p.clone()),
            None => Err((4324223, crate::text::text_of("Путь до файла отсуствует"))),
        }
    }

    pub fn get_type_report_that_generated(&self) -> (r: Option<ReportItemType>)
        ensures
            r == self.type_report_that_generated,
    {
        self.type_report_that_generated
    }

    pub fn get_filter_payments_system(&self) -> (r: Option<&Vec<String>>)
        ensures
            self.payments_system matches Some(p) ==> r == Some(&p),
            self.payments_system is None ==> r is None,
    {
        self.payments_system.as_ref()
    }
}

} // verus!
