//! The ClickBench benchmark's table definition and runner options.

use vstd::prelude::*;
use vstd::string::StringExecFns;

use crate::bench::options::CommonOpt;

verus! {

/// The column list of the `hits` table.
pub open spec fn spec_hits_columns() -> Seq<char> {
    "
        WatchID BIGINT,
        JavaEnable SMALLINT,
        Title VARCHAR,
        GoodEvent SMALLINT,
        EventTime BIGINT,
        EventDate SMALLINT,
        CounterID INTEGER,
        ClientIP INTEGER,
        RegionID INTEGER,
        UserID BIGINT,
        CounterClass SMALLINT,
        OS SMALLINT,
        UserAgent SMALLINT,
        URL VARCHAR,
        Referer VARCHAR,
        IsRefresh SMALLINT,
        RefererCategoryID SMALLINT,
        RefererRegionID INTEGER,
        URLCategoryID SMALLINT,
        URLRegionID INTEGER,
        ResolutionWidth SMALLINT,
        ResolutionHeight SMALLINT,
        ResolutionDepth SMALLINT,
        FlashMajor SMALLINT,
        FlashMinor SMALLINT,
        FlashMinor2 VARCHAR,
        NetMajor SMALLINT,
        NetMinor SMALLINT,
        UserAgentMajor SMALLINT,
        UserAgentMinor VARCHAR,
        CookieEnable SMALLINT,
        JavascriptEnable SMALLINT,
        IsMobile SMALLINT,
        MobilePhone SMALLINT,
        MobilePhoneModel VARCHAR,
        Params VARCHAR,
        IPNetworkID INTEGER,
        TraficSourceID SMALLINT,
        SearchEngineID SMALLINT,
        SearchPhrase VARCHAR,
        AdvEngineID SMALLINT,
        IsArtifical SMALLINT,
        WindowClientWidth SMALLINT,
        WindowClientHeight SMALLINT,
        ClientTimeZone SMALLINT,
        ClientEventTime BIGINT,
        SilverlightVersion1 SMALLINT,
        SilverlightVersion2 SMALLINT,
        SilverlightVersion3 INTEGER,
        SilverlightVersion4 SMALLINT,
        PageCharset VARCHAR,
        CodeVersion INTEGER,
        IsLink SMALLINT,
        IsDownload SMALLINT,
        IsNotBounce SMALLINT,
        FUniqID BIGINT,
        OriginalURL VARCHAR,
        HID INTEGER,
        IsOldCounter SMALLINT,
        IsEvent SMALLINT,
        IsParameter SMALLINT,
        DontCountHits SMALLINT,
        WithHash SMALLINT,
        HitColor VARCHAR,
        LocalEventTime BIGINT,
        Age SMALLINT,
        Sex SMALLINT,
        Income SMALLINT,
        Interests SMALLINT,
        Robotness SMALLINT,
        RemoteIP INTEGER,
        WindowName INTEGER,
        OpenerName INTEGER,
        HistoryLength SMALLINT,
        BrowserLanguage VARCHAR,
        BrowserCountry VARCHAR,
        SocialNetwork VARCHAR,
        SocialAction VARCHAR,
        HTTPError SMALLINT,
        SendTiming INTEGER,
        DNSTiming INTEGER,
        ConnectTiming INTEGER,
        ResponseStartTiming INTEGER,
        ResponseEndTiming INTEGER,
        FetchTiming INTEGER,
        SocialSourceNetworkID SMALLINT,
        SocialSourcePage VARCHAR,
        ParamPrice BIGINT,
        ParamOrderID VARCHAR,
        ParamCurrency VARCHAR,
        ParamCurrencyID SMALLINT,
        OpenstatServiceName VARCHAR,
        OpenstatCampaignID VARCHAR,
        OpenstatAdID VARCHAR,
        OpenstatSourceID VARCHAR,
        UTMSource VARCHAR,
        UTMMedium VARCHAR,
        UTMCampaign VARCHAR,
        UTMContent VARCHAR,
        UTMTerm VARCHAR,
        FromTag VARCHAR,
        HasGCLID SMALLINT,
        RefererHash BIGINT,
        URLHash BIGINT,
        CLID INTEGER
    "@
}

/// The `CREATE OR REPLACE TABLE` statement registering the ClickBench
/// `hits` data under the given table name.
pub fn get_hits_table_sql(table: &String) -> (r: String)
    ensures
        r@ == "CREATE OR REPLACE TABLE "@ + table@ + " ("@ + spec_hits_columns() + ");"@,
{
    let mut out = String::from_str("CREATE OR REPLACE TABLE ");
    out.append(table.as_str());
    out.append(" (");
    out.append(
        "
        WatchID BIGINT,
        JavaEnable SMALLINT,
        Title VARCHAR,
        GoodEvent SMALLINT,
        EventTime BIGINT,
        EventDate SMALLINT,
        CounterID INTEGER,
        ClientIP INTEGER,
        RegionID INTEGER,
        UserID BIGINT,
        CounterClass SMALLINT,
        OS SMALLINT,
        UserAgent SMALLINT,
        URL VARCHAR,
        Referer VARCHAR,
        IsRefresh SMALLINT,
        RefererCategoryID SMALLINT,
        RefererRegionID INTEGER,
        URLCategoryID SMALLINT,
        URLRegionID INTEGER,
        ResolutionWidth SMALLINT,
        ResolutionHeight SMALLINT,
        ResolutionDepth SMALLINT,
        FlashMajor SMALLINT,
        FlashMinor SMALLINT,
        FlashMinor2 VARCHAR,
        NetMajor SMALLINT,
        NetMinor SMALLINT,
        UserAgentMajor SMALLINT,
        UserAgentMinor VARCHAR,
        CookieEnable SMALLINT,
        JavascriptEnable SMALLINT,
        IsMobile SMALLINT,
        MobilePhone SMALLINT,
        MobilePhoneModel VARCHAR,
        Params VARCHAR,
        IPNetworkID INTEGER,
        TraficSourceID SMALLINT,
        SearchEngineID SMALLINT,
        SearchPhrase VARCHAR,
        AdvEngineID SMALLINT,
        IsArtifical SMALLINT,
        WindowClientWidth SMALLINT,
        WindowClientHeight SMALLINT,
        ClientTimeZone SMALLINT,
        ClientEventTime BIGINT,
        SilverlightVersion1 SMALLINT,
        SilverlightVersion2 SMALLINT,
        SilverlightVersion3 INTEGER,
        SilverlightVersion4 SMALLINT,
        PageCharset VARCHAR,
        CodeVersion INTEGER,
        IsLink SMALLINT,
        IsDownload SMALLINT,
        IsNotBounce SMALLINT,
        FUniqID BIGINT,
        OriginalURL VARCHAR,
        HID INTEGER,
        IsOldCounter SMALLINT,
        IsEvent SMALLINT,
        IsParameter SMALLINT,
        DontCountHits SMALLINT,
        WithHash SMALLINT,
        HitColor VARCHAR,
        LocalEventTime BIGINT,
        Age SMALLINT,
        Sex SMALLINT,
        Income SMALLINT,
        Interests SMALLINT,
        Robotness SMALLINT,
        RemoteIP INTEGER,
        WindowName INTEGER,
        OpenerName INTEGER,
        HistoryLength SMALLINT,
        BrowserLanguage VARCHAR,
        BrowserCountry VARCHAR,
        SocialNetwork VARCHAR,
        SocialAction VARCHAR,
        HTTPError SMALLINT,
        SendTiming INTEGER,
        DNSTiming INTEGER,
        ConnectTiming INTEGER,
        ResponseStartTiming INTEGER,
        ResponseEndTiming INTEGER,
        FetchTiming INTEGER,
        SocialSourceNetworkID SMALLINT,
        SocialSourcePage VARCHAR,
        ParamPrice BIGINT,
        ParamOrderID VARCHAR,
        ParamCurrency VARCHAR,
        ParamCurrencyID SMALLINT,
        OpenstatServiceName VARCHAR,
        OpenstatCampaignID VARCHAR,
        OpenstatAdID VARCHAR,
        OpenstatSourceID VARCHAR,
        UTMSource VARCHAR,
        UTMMedium VARCHAR,
        UTMCampaign VARCHAR,
        UTMContent VARCHAR,
        UTMTerm VARCHAR,
        FromTag VARCHAR,
        HasGCLID SMALLINT,
        RefererHash BIGINT,
        URLHash BIGINT,
        CLID INTEGER
    ",
    );
    out.append(");");
    out
}

/// The queries of one benchmark run, read from the queries file and
/// identified by line number.
pub struct AllQueries {
    queries: Vec<String>,
}

impl AllQueries {
    /// The loaded query texts.
    pub closed spec fn spec_queries(&self) -> Seq<String> {
        self.queries@
    }

    /// Wrap the query texts read from the queries file.
    pub fn new(queries: Vec<String>) -> (r: Self)
        ensures
            r.spec_queries() == queries@,
    {
        AllQueries { queries }
    }

    /// The text of query `query_id`; `None` when the id lies outside
    /// `min_query_id() ..= max_query_id()`.
    pub fn get_query(&self, query_id: usize) -> (r: Option<&String>)
        ensures
            match r {
                Some(q) => query_id < self.spec_queries().len() && q
                    == self.spec_queries()[query_id as int],
                None => query_id >= self.spec_queries().len(),
            },
    {
        if query_id < self.queries.len() {
            Some(&self.queries[query_id])
        } else {
            None
        }
    }

    /// The smallest query id.
    pub fn min_query_id(&self) -> (r: usize)
        ensures
            r == 0,
    {
        0
    }

    /// The largest query id.
    pub fn max_query_id(&self) -> (r: usize)
        requires
            self.spec_queries().len() > 0,
        ensures
            r == self.spec_queries().len() - 1,
    {
        self.queries.len() - 1
    }
}

/// Options of the ClickBench benchmark run.
#[derive(Debug, Clone)]
pub struct RunOpt {
    /// Query number; all queries run when none is given.
    pub query: Option<usize>,
    /// Options shared by the benchmark runners.
    pub common: CommonOpt,
    /// Path to the hits data, a single file or the partitioned directory.
    pub path: String,
    /// Path to the queries file.
    pub queries_path: String,
    /// Path of the results file, when one is written.
    pub output_path: Option<String>,
}

impl RunOpt {
    /// Assemble the options of one run.
    pub fn new(
        query: Option<usize>,
        common: CommonOpt,
        path: String,
        queries_path: String,
        output_path: Option<String>,
    ) -> (r: Self)
        ensures
            r == (RunOpt { query, common, path, queries_path, output_path }),
    {
        RunOpt { query, common, path, queries_path, output_path }
    }
}

} // verus!
