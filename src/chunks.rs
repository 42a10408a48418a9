use vstd::prelude::*;
use crate::error::ResponseError;
use crate::filter::{category_of_kind, get_status, Filter, ReportItemType, ReportType, Status};
use crate::error::{field_code, Field, ReportError};
use crate::index_map::{IndexingReport, apply_headers, first_missing};
use crate::row::cell;
use crate::text::{lower_of, text_eq, text_of, to_lower};

verus! {

/// Rows per chunk.
pub const CHUNK_SIZE: usize = 256;

pub open spec fn status_name(s: Status) -> Seq<char> {
    match s {
        Status::Completed => "Завершена"@,
        Status::Mistake => "Ошибка"@,
        Status::Created => "Создана"@,
        Status::Cancel => "Отмена"@,
        Status::Null => "Null"@,
        Status::Unknown => "Unknown"@,
    }
}

/// The column that holds the organization's id for a kind of report, or
/// the error code when the kind has none or the file lacks it.
pub open spec fn org_column(ix: IndexingReport, kind: ReportType) -> Result<usize, i32> {
    match kind {
        ReportType::Agent => match ix.index_provider_id { Some(i) => Ok(i), None => Err(3443242) },
        ReportType::TaxiCompany => match ix.index_provider_id { Some(i) => Ok(i), None => Err(3443243) },
        ReportType::Merchant => match ix.index_merchant_id { Some(i) => Ok(i), None => Err(3443244) },
        ReportType::Unknown => Err(3443245),
    }
}

/// Whether a row passes a filter: its status, mode, organization and (for
/// payments) payment system are the ones asked for; an unknown status
/// passes no row, and a cell the row lacks matches nothing.
pub open spec fn row_accepted(f: Filter, row: Seq<Seq<char>>, ix: IndexingReport, org: Seq<char>, org_col: usize) -> bool {
    let status_ok = match f.status {
        None => true,
        Some(Status::Unknown) => false,
        Some(s) => cell(row, ix.index_status) == Some(status_name(s)),
    };
    let mode_ok = match f.mode {
        None => true,
        Some(m) => m@.len() == 0 || cell(row, ix.index_mode) == Some(m@),
    };
    let org_ok = org.len() == 0 || cell(row, Some(org_col)) == Some(org);
    let systems_ok = match f.payments_system {
        None => true,
        Some(ps) => f.type_report_that_generated != Some(ReportItemType::Payments) || ps@.len() == 0
            || (cell(row, ix.index_payment_system) matches Some(c)
                && exists|i: int| 0 <= i < ps@.len() && lower_of(#[trigger] ps@[i]@) == lower_of(c)),
    };
    status_ok && mode_ok && org_ok && systems_ok
}

fn cell_is(row: &Vec<String>, idx: Option<usize>, want: &str) -> (r: bool)
    ensures
        r == (cell(row.deep_view(), idx) == Some(want@)),
{
    match idx {
        Some(i) => if i < row.len() { text_eq(row[i].as_str(), want) } else { false },
        None => false,
    }
}

impl Filter {
    /// Whether a row passes the filter; an error when the report kind names
    /// no organization column or the file lacks it.
    pub fn filter_validation(
        &self,
        record: &Vec<String>,
        collect_indexing: &IndexingReport,
        organization_provider_id: &str,
        report_type: &ReportType,
    ) -> (r: Result<bool, ResponseError>)
        ensures
            match org_column(*collect_indexing, *report_type) {
                Err(code) => r matches Err(e) && e.0 == code,
                Ok(col) => r == Ok::<bool, ResponseError>(row_accepted(*self, record.deep_view(), *collect_indexing, organization_provider_id@, col)),
            },
    {
        let col = match org_column_exec(collect_indexing, report_type) {
            Ok(c) => c,
            Err(e) => return Err(e),
        };
        let status_ok = match self.status {
            None => true,
            Some(Status::Unknown) => false,
            Some(_) => match get_status(self) {
                Some(name) => cell_is(record, collect_indexing.index_status, name),
                None => false,
            },
        };
        let mode_ok = match &self.mode {
            None => true,
            Some(m) => m.as_str().unicode_len() == 0 || cell_is(record, collect_indexing.index_mode, m.as_str()),
        };
        let org_ok = organization_provider_id.unicode_len() == 0 || cell_is(record, Some(col), organization_provider_id);
        let systems_ok = match &self.payments_system {
            None => true,
            Some(ps) => {
                if self.type_report_that_generated != Some(ReportItemType::Payments) || ps.len() == 0 {
                    true
                } else {
                    match collect_indexing.index_payment_system {
                        Some(i) => if i < record.len() {
                            let field = to_lower(record[i].as_str());
                            let mut found = false;
                            let mut k: usize = 0;
                            while k < ps.len() && !found
                                invariant
                                    k <= ps.len(),
                                    field@ == lower_of(record@[i as int]@),
                                    found ==> exists|j: int| 0 <= j < ps@.len() && lower_of(#[trigger] ps@[j]@) == field@,
                                    !found ==> forall|j: int| 0 <= j < k ==> lower_of(#[trigger] ps@[j]@) != field@,
                                decreases ps.len() - k + (if found { 0int } else { 1int }),
                            {
                                let p = to_lower(ps[k].as_str());
                                if text_eq(p.as_str(), field.as_str()) {
                                    found = true;
                                } else {
                                    k = k + 1;
                                }
                            }
                            proof {
                                if !found {
                                    assert(k == ps.len());
                                }
                                assert(cell(record.deep_view(), Some(i)) == Some(record@[i as int]@));
                            }
                            found
                        } else {
                            false
                        },
                        None => false,
                    }
                }
            },
        };
        Ok(status_ok && mode_ok && org_ok && systems_ok)
    }
}

/// The rows of a file that pass a filter, in order.
pub open spec fn accepted_rows(f: Filter, rows: Seq<Seq<Seq<char>>>, ix: IndexingReport, org: Seq<char>, col: usize) -> Seq<Seq<Seq<char>>> {
    rows.filter(|r: Seq<Seq<char>>| row_accepted(f, r, ix, org, col))
}

/// Chunks of at most `CHUNK_SIZE` rows, every one but the last full, none
/// empty.
pub open spec fn well_chunked(c: Seq<Seq<Seq<Seq<char>>>>) -> bool {
    &&& forall|i: int| 0 <= i < c.len() ==> 1 <= (#[trigger] c[i]).len() <= CHUNK_SIZE
    &&& forall|i: int| 0 <= i < c.len() - 1 ==> (#[trigger] c[i]).len() == CHUNK_SIZE
}

fn org_column_exec(ix: &IndexingReport, kind: &ReportType) -> (r: Result<usize, ResponseError>)
    ensures
        match org_column(*ix, *kind) {
            Err(code) => r matches Err(e) && e.0 == code,
            Ok(col) => r == Ok::<usize, ResponseError>(col),
        },
{
    match kind {
        ReportType::Agent => match ix.index_provider_id {
            Some(i) => Ok(i),
            None => Err((3443242, text_of("index_Provider не был найден"))),
        },
        ReportType::TaxiCompany => match ix.index_provider_id {
            Some(i) => Ok(i),
            None => Err((3443243, text_of("index_Provider не был найден"))),
        },
        ReportType::Merchant => match ix.index_merchant_id {
            Some(i) => Ok(i),
            None => Err((3443244, text_of("index_merchant_id не был найден"))),
        },
        ReportType::Unknown => Err((3443245, text_of("Невозможно распознать index так как вы передали не известный отчет"))),
    }
}

/// A copy of a list of texts.
pub fn copy_texts(row: &Vec<String>) -> (r: Vec<String>)
    ensures
        r.deep_view() == row.deep_view(),
{
    let mut out: Vec<String> = Vec::new();
    let mut i: usize = 0;
    while i < row.len()
        invariant
            i <= row.len(),
            out.len() == i,
            forall|k: int| 0 <= k < i ==> #[trigger] out@[k]@ == row@[k]@,
        decreases row.len() - i,
    {
        out.push(row[i].clone());
        i = i + 1;
    }
    assert(out.deep_view() =~= row.deep_view());
    out
}

/// Splits the data rows of a file (its header row excluded) into chunks of
/// the rows that pass the filter; an error when the filter cannot be
/// applied (see `Filter::filter_validation`).
pub fn build_chunks_for_share(
    records: &Vec<Vec<String>>,
    organization_provider_id: &str,
    filter: &Filter,
    collect_indexing: &IndexingReport,
    report_type: &ReportType,
) -> (r: Result<Vec<Vec<Vec<String>>>, ResponseError>)
    ensures
        match org_column(*collect_indexing, *report_type) {
            Err(code) => r matches Err(e) && e.0 == code,
            Ok(col) => r matches Ok(c) && well_chunked(c.deep_view())
                && c.deep_view().flatten_alt() == accepted_rows(*filter, records.deep_view(), *collect_indexing, organization_provider_id@, col),
        },
{
    if let Err(e) = org_column_exec(collect_indexing, report_type) {
        return Err(e);
    }
    let ghost rows = records.deep_view();
    let ghost col = org_column(*collect_indexing, *report_type)->Ok_0;
    let mut chunks: Vec<Vec<Vec<String>>> = Vec::new();
    let mut chunk: Vec<Vec<String>> = Vec::new();
    let mut i: usize = 0;
    proof {
        reveal(Seq::filter);
        assert(rows.take(0) =~= Seq::<Seq<Seq<char>>>::empty());
        assert(chunks.deep_view() =~= Seq::<Seq<Seq<Seq<char>>>>::empty());
        assert(chunk.deep_view() =~= Seq::<Seq<Seq<char>>>::empty());
        assert(accepted_rows(*filter, rows.take(0), *collect_indexing, organization_provider_id@, col) =~= Seq::<Seq<Seq<char>>>::empty());
    }
    while i < records.len()
        invariant
            i <= records.len(),
            rows == records.deep_view(),
            org_column(*collect_indexing, *report_type) is Ok,
            col == org_column(*collect_indexing, *report_type)->Ok_0,
            chunk.len() < CHUNK_SIZE,
            forall|k: int| 0 <= k < chunks.len() ==> (#[trigger] chunks.deep_view()[k]).len() == CHUNK_SIZE,
            chunks.deep_view().flatten_alt() + chunk.deep_view() == accepted_rows(*filter, rows.take(i as int), *collect_indexing, organization_provider_id@, col),
        decreases records.len() - i,
    {
        let ok = match filter.filter_validation(&records[i], collect_indexing, organization_provider_id, report_type) {
            Ok(b) => b,
            Err(e) => return Err(e),
        };
        let ghost before_flat = chunks.deep_view().flatten_alt();
        let ghost before_chunk = chunk.deep_view();
        proof {
            reveal(Seq::filter);
            assert(rows.take(i + 1).drop_last() =~= rows.take(i as int));
            assert(rows.take(i + 1).last() == rows[i as int]);
            assert(row_accepted(*filter, rows[i as int], *collect_indexing, organization_provider_id@, col) == ok);
        }
        if ok {
            chunk.push(copy_texts(&records[i]));
            assert(chunk.deep_view() =~= before_chunk.push(rows[i as int]));
            if chunk.len() == CHUNK_SIZE {
                let ghost full = chunk.deep_view();
                let ghost old_chunks = chunks.deep_view();
                crate::helper::is_empty_chunk(&mut chunks, &mut chunk);
                proof {
                    let c = chunks.deep_view();
                    assert(c.drop_last() =~= old_chunks);
                    assert(c.last() == full);
                    assert forall|k: int| 0 <= k < c.len() implies (#[trigger] c[k]).len() == CHUNK_SIZE by {
                        if k < old_chunks.len() {
                            assert(c[k] == old_chunks[k]);
                        }
                    }
                    assert(c.flatten_alt() == c.drop_last().flatten_alt() + c.last());
                    assert(chunks.deep_view().drop_last() =~= old_chunks);
                    assert(chunk.deep_view() =~= Seq::<Seq<Seq<char>>>::empty());
                }
            }
        }
        i = i + 1;
    }
    proof {
        assert(rows.take(records.len() as int) =~= rows);
    }
    let ghost old_chunks = chunks.deep_view();
    let ghost rest = chunk.deep_view();
    crate::helper::is_empty_chunk(&mut chunks, &mut chunk);
    proof {
        let c = chunks.deep_view();
        if rest.len() > 0 {
            assert(c.drop_last() =~= old_chunks);
            assert(c.last() == rest);
            assert(c.flatten_alt() == c.drop_last().flatten_alt() + c.last());
        } else {
            assert(rest =~= Seq::<Seq<Seq<char>>>::empty());
            assert(c =~= old_chunks);
            assert(old_chunks.flatten_alt() + rest =~= old_chunks.flatten_alt());
        }
        assert(well_chunked(c)) by {
            assert forall|k: int| 0 <= k < c.len() implies 1 <= (#[trigger] c[k]).len() <= CHUNK_SIZE by {
                if k < old_chunks.len() {
                    assert(c[k] == old_chunks[k]);
                }
            }
            assert forall|k: int| 0 <= k < c.len() - 1 implies (#[trigger] c[k]).len() == CHUNK_SIZE by {
                if k < old_chunks.len() {
                    assert(c[k] == old_chunks[k]);
                }
            }
        }
    }
    Ok(chunks)
}

/// One source file ready for merging: its category, its chunks, the
/// position of its filter, and its column map.
pub type TypedChunks = (ReportItemType, Vec<Vec<Vec<String>>>, usize, IndexingReport);

pub open spec fn empty_index() -> IndexingReport {
    IndexingReport {
        index_commission: None,
        index_commission_sys: None,
        index_commission_bank: None,
        index_commission_payment: None,
        index_commission_eops: None,
        index_commission_partner: None,
        commission_secondbank: None,
        index_date: None,
        index_provider: None,
        index_provider_id: None,
        index_mode: None,
        index_status: None,
        index_amount: None,
        index_vendor: None,
        index_merchant_id: None,
        index_tran_type: None,
        index_payment_system: None,
    }
}

/// What a source file yields: `files[k]` is the header and the data rows of
/// the file of `filters[k]`.
pub open spec fn typed_chunks_ok(
    t: TypedChunks,
    filters: Seq<Filter>,
    files: Seq<(Vec<String>, Vec<Vec<String>>)>,
    org: Seq<char>,
    kind: ReportType,
) -> bool {
    let k = t.2 as int;
    &&& 0 <= k < filters.len()
    &&& filters[k].type_report_that_generated == Some(t.0)
    &&& t.3 == apply_headers(empty_index(), files[k].0.deep_view(), t.0)
    &&& first_missing(t.3, t.0) is None
    &&& org_column(t.3, kind) is Ok
    &&& well_chunked(t.1.deep_view())
    &&& t.1.deep_view().flatten_alt() == accepted_rows(filters[k], files[k].1.deep_view(), t.3, org, org_column(t.3, kind)->Ok_0)
}

/// The category a filter's file kind resolves to.
pub open spec fn resolved_category(f: Filter) -> Option<ReportItemType> {
    match f.type_of_report_we_depend {
        Some(k) => category_of_kind(k@),
        None => None,
    }
}

/// Whether a file can be chunked: its filter's kind resolves to a category,
/// and its header has every column that category needs and the report
/// kind's organization column.
pub open spec fn file_ok(f: Filter, header: Seq<Seq<char>>, kind: ReportType) -> bool {
    match resolved_category(f) {
        Some(c) => first_missing(apply_headers(empty_index(), header, c), c) is None
            && org_column(apply_headers(empty_index(), header, c), kind) is Ok,
        None => false,
    }
}

/// The column the header lacks for the filter's category, if any.
pub open spec fn file_missing(f: Filter, header: Seq<Seq<char>>) -> Option<Field> {
    match resolved_category(f) {
        Some(c) => first_missing(apply_headers(empty_index(), header, c), c),
        None => None,
    }
}

/// The filters up to position `k` all resolve to a category.
pub open spec fn resolved_through(fs: Seq<Filter>, k: int) -> bool {
    forall|j: int| 0 <= j <= k ==> (#[trigger] resolved_category(fs[j])) is Some
}

/// Some error of the list has the code.
pub open spec fn has_code(errors: Seq<ResponseError>, code: i32) -> bool {
    exists|e: int| 0 <= e < errors.len() && (#[trigger] errors[e]).0 == code
}

proof fn lemma_push_keeps(before: Seq<ResponseError>, x: ResponseError, code: i32)
    requires
        exists|e: int| 0 <= e < before.len() && (#[trigger] before[e]).0 == code,
    ensures
        exists|e: int| 0 <= e < before.push(x).len() && (#[trigger] before.push(x)[e]).0 == code,
{
    let e = choose|e: int| 0 <= e < before.len() && (#[trigger] before[e]).0 == code;
    assert(before.push(x)[e] == before[e]);
}

/// Resolves each filter's category and turns its file into chunks. Stops
/// at the first filter whose category cannot be resolved; a file whose
/// header lacks a needed column adds that column's error and is skipped, as
/// is a file whose report kind has no organization column. Succeeds exactly
/// when every file can be chunked; otherwise fails with the errors
/// collected.
pub fn create_chunks_by_types(
    filters: &mut Vec<Filter>,
    files: &Vec<(Vec<String>, Vec<Vec<String>>)>,
    organization_provider_id: &str,
    generation_type: ReportType,
) -> (r: Result<Vec<TypedChunks>, Vec<ResponseError>>)
    requires
        old(filters).len() == files.len(),
    ensures
        final(filters).len() == old(filters).len(),
        forall|k: int| 0 <= k < files.len() ==> (#[trigger] final(filters)@[k]).type_of_report_we_depend
            == old(filters)@[k].type_of_report_we_depend && final(filters)@[k].id == old(filters)@[k].id,
        r is Ok <==> forall|k: int| 0 <= k < files.len() ==> file_ok(#[trigger] old(filters)@[k], files@[k].0.deep_view(), generation_type),
        r matches Ok(list) ==> list.len() == files.len() && forall|k: int| 0 <= k < list.len() ==> (#[trigger] list@[k]).2 == k
            && typed_chunks_ok(list@[k], final(filters)@, files@, organization_provider_id@, generation_type),
        forall|k: int| 0 <= k < files.len() && resolved_through(old(filters)@, k)
            && (#[trigger] file_missing(old(filters)@[k], files@[k].0.deep_view())) is Some
            ==> r is Err && has_code(r->Err_0@, field_code(file_missing(old(filters)@[k], files@[k].0.deep_view())->Some_0)),
        r matches Err(errors) ==> errors.len() > 0,
{
    let ghost start = filters@;
    let mut errors: Vec<ResponseError> = Vec::new();
    let mut out: Vec<TypedChunks> = Vec::new();
    let mut i: usize = 0;
    while i < filters.len()
        invariant
            i <= filters.len(),
            filters.len() == files.len(),
            start.len() == files.len(),
            forall|k: int| 0 <= k < files.len() ==> (#[trigger] filters@[k]).type_of_report_we_depend
                == start[k].type_of_report_we_depend && filters@[k].id == start[k].id,
            forall|k: int| i <= k < files.len() ==> #[trigger] filters@[k] == start[k],
            forall|j: int| 0 <= j < i ==> (#[trigger] resolved_category(start[j])) is Some,
            errors.len() == 0 ==> out.len() == i,
            errors.len() == 0 ==> forall|j: int| 0 <= j < i ==> file_ok(#[trigger] start[j], files@[j].0.deep_view(), generation_type),
            errors.len() > 0 ==> exists|j: int| 0 <= j < files.len() && !file_ok(#[trigger] start[j], files@[j].0.deep_view(), generation_type),
            forall|j: int| 0 <= j < i && (#[trigger] file_missing(start[j], files@[j].0.deep_view())) is Some
                ==> exists|e: int| 0 <= e < errors.len() && (#[trigger] errors@[e]).0 == field_code(file_missing(start[j], files@[j].0.deep_view())->Some_0),
            forall|k: int| 0 <= k < out.len() ==> (#[trigger] out@[k]).2 < i
                && typed_chunks_ok(out@[k], filters@, files@, organization_provider_id@, generation_type),
            errors.len() == 0 ==> forall|k: int| 0 <= k < out.len() ==> (#[trigger] out@[k]).2 == k,
        ensures
            errors.len() == 0 ==> i == filters.len(),
            filters.len() == files.len(),
            forall|k: int| 0 <= k < files.len() ==> (#[trigger] filters@[k]).type_of_report_we_depend
                == start[k].type_of_report_we_depend && filters@[k].id == start[k].id,
            errors.len() == 0 ==> out.len() == i,
            errors.len() == 0 ==> forall|j: int| 0 <= j < i ==> file_ok(#[trigger] start[j], files@[j].0.deep_view(), generation_type),
            errors.len() > 0 ==> exists|j: int| 0 <= j < files.len() && !file_ok(#[trigger] start[j], files@[j].0.deep_view(), generation_type),
            forall|j: int| 0 <= j < i && (#[trigger] file_missing(start[j], files@[j].0.deep_view())) is Some
                ==> exists|e: int| 0 <= e < errors.len() && (#[trigger] errors@[e]).0 == field_code(file_missing(start[j], files@[j].0.deep_view())->Some_0),
            i < files.len() ==> resolved_category(start[i as int]) is None,
            forall|j: int| 0 <= j < i ==> (#[trigger] resolved_category(start[j])) is Some,
            forall|k: int| 0 <= k < out.len() ==> typed_chunks_ok(#[trigger] out@[k], filters@, files@, organization_provider_id@, generation_type),
            errors.len() == 0 ==> forall|k: int| 0 <= k < out.len() ==> (#[trigger] out@[k]).2 == k,
        decreases filters.len() - i,
    {
        let ghost before = filters@;
        let ghost before_errors = errors@;
        let ghost header = files@[i as int].0.deep_view();
        let mut f = filters.remove(i);
        let resolved = f.set_type_report_that_generated();
        filters.insert(i, f);
        proof {
            assert forall|k: int| 0 <= k < filters.len() && k != i implies #[trigger] filters@[k] == before[k] by {}
            assert forall|k: int| 0 <= k < out.len() implies typed_chunks_ok(#[trigger] out@[k], filters@, files@, organization_provider_id@, generation_type) by {
                assert(out@[k].2 < i);
                assert(filters@[out@[k].2 as int] == before[out@[k].2 as int]);
            }
            assert(filters@[i as int].type_of_report_we_depend == start[i as int].type_of_report_we_depend);
        }
        if let Err(e) = resolved {
            errors.push(e.to_response());
            proof {
                assert(errors@ =~= before_errors.push(errors@[errors.len() - 1]));
                assert(!file_ok(start[i as int], header, generation_type));
                assert forall|j: int| 0 <= j < i && (#[trigger] file_missing(start[j], files@[j].0.deep_view())) is Some
                    implies exists|e: int| 0 <= e < errors.len() && (#[trigger] errors@[e]).0 == field_code(file_missing(start[j], files@[j].0.deep_view())->Some_0) by {
                    lemma_push_keeps(before_errors, errors@[errors.len() - 1], field_code(file_missing(start[j], files@[j].0.deep_view())->Some_0));
                }
            }
            break;
        }
        let category = match filters[i].type_report_that_generated {
            Some(c) => c,
            None => {
                errors.push(ReportError::UnknownCategory.to_response());
                proof {
                    assert(false);
                }
                break;
            },
        };
        assert(resolved_category(start[i as int]) == Some(category));
        let mut index = IndexingReport::new();
        index.find_index_by_name(&files[i].0, category);
        assert(index == apply_headers(empty_index(), header, category));
        match index.check_which_fields_not_found(category) {
            Err(e) => {
                errors.push(e.to_response());
                proof {
                    assert(errors@ =~= before_errors.push(errors@[errors.len() - 1]));
                    assert(!file_ok(start[i as int], header, generation_type));
                    assert(errors@[errors.len() - 1].0 == field_code(file_missing(start[i as int], header)->Some_0));
                    assert forall|j: int| 0 <= j < i + 1 && (#[trigger] file_missing(start[j], files@[j].0.deep_view())) is Some
                        implies exists|e: int| 0 <= e < errors.len() && (#[trigger] errors@[e]).0 == field_code(file_missing(start[j], files@[j].0.deep_view())->Some_0) by {
                        if j < i {
                            lemma_push_keeps(before_errors, errors@[errors.len() - 1], field_code(file_missing(start[j], files@[j].0.deep_view())->Some_0));
                        } else {
                            assert(errors@[errors.len() - 1].0 == field_code(file_missing(start[j], files@[j].0.deep_view())->Some_0));
                        }
                    }
                }
            },
            Ok(()) => {
                match build_chunks_for_share(&files[i].1, organization_provider_id, &filters[i], &index, &generation_type) {
                    Ok(chunks) => {
                        let ghost old_out = out@;
                        out.push((category, chunks, i, index));
                        proof {
                            assert(file_ok(start[i as int], header, generation_type));
                            assert forall|k: int| 0 <= k < out.len() implies (#[trigger] out@[k]).2 < i + 1
                                && typed_chunks_ok(out@[k], filters@, files@, organization_provider_id@, generation_type) by {
                                if k < old_out.len() {
                                    assert(out@[k] == old_out[k]);
                                }
                            }
                        }
                    },
                    Err(e) => {
                        errors.push(e);
                        proof {
                            assert(errors@ =~= before_errors.push(errors@[errors.len() - 1]));
                            assert(!file_ok(start[i as int], header, generation_type));
                            assert forall|j: int| 0 <= j < i && (#[trigger] file_missing(start[j], files@[j].0.deep_view())) is Some
                                implies exists|e2: int| 0 <= e2 < errors.len() && (#[trigger] errors@[e2]).0 == field_code(file_missing(start[j], files@[j].0.deep_view())->Some_0) by {
                                lemma_push_keeps(before_errors, errors@[errors.len() - 1], field_code(file_missing(start[j], files@[j].0.deep_view())->Some_0));
                            }
                        }
                    },
                }
            },
        }
        i = i + 1;
    }
    proof {
        assert(start == old(filters)@);
        assert forall|k: int| 0 <= k < files.len() && resolved_through(old(filters)@, k)
            && (#[trigger] file_missing(old(filters)@[k], files@[k].0.deep_view())) is Some
            implies errors.len() > 0 && has_code(errors@, field_code(file_missing(old(filters)@[k], files@[k].0.deep_view())->Some_0)) by {
            if k >= i {
                assert(resolved_category(old(filters)@[i as int]) is Some);
            }
            assert(file_missing(start[k], files@[k].0.deep_view()) is Some);
        }
    }
    if errors.len() > 0 {
        Err(errors)
    } else {
        Ok(out)
    }
}

/// How many chunks the first `k` files of category `c` hold: the id of the
/// first chunk of file `k` within its category; with `k` the number of
/// files, the category's chunk count.
pub open spec fn chunks_before(items: Seq<(ReportItemType, usize)>, k: int, c: ReportItemType) -> nat
    decreases k,
{
    if k <= 0 {
        0
    } else {
        chunks_before(items, k - 1, c) + if items[k - 1].0 == c { items[k - 1].1 as nat } else { 0 }
    }
}

proof fn lemma_chunks_before_grows(items: Seq<(ReportItemType, usize)>, j: int, k: int, c: ReportItemType)
    requires
        0 <= j <= k,
    ensures
        chunks_before(items, j, c) <= chunks_before(items, k, c),
    decreases k - j,
{
    if j < k {
        lemma_chunks_before_grows(items, j, k - 1, c);
    }
}

/// The chunks that the first `upto` files of category `c` hold, where
/// `items` gives each file's category and chunk count in order; `None`
/// when they are more than chunk ids can number.
pub fn chunks_of_category(items: &Vec<(ReportItemType, usize)>, upto: usize, c: ReportItemType) -> (r: Option<u32>)
    requires
        upto <= items.len(),
    ensures
        r matches Some(v) ==> v as nat == chunks_before(items@, upto as int, c),
        r is None ==> chunks_before(items@, upto as int, c) > u32::MAX,
{
    let mut sum: u128 = 0;
    let mut k: usize = 0;
    while k < upto
        invariant
            k <= upto <= items.len(),
            sum as nat == chunks_before(items@, k as int, c),
            sum <= u32::MAX,
        decreases upto - k,
    {
        if items[k].0 == c {
            sum = sum + items[k].1 as u128;
        }
        k = k + 1;
        if sum > u32::MAX as u128 {
            proof {
                lemma_chunks_before_grows(items@, k as int, upto as int, c);
            }
            return None;
        }
    }
    Some(sum as u32)
}

} // verus!
