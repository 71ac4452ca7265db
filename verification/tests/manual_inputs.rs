use chrono::DateTime;
use meter_core::data::{clone_data202303, Data202303};
use meter_core::merge::save_manual_inputs;
use meter_core::ringbuffer::RingBufferViewIter;
use meter_core::store::AppState;

fn rows(cursor: RingBufferViewIter<'_, Data202303<f64>>) -> Vec<Data202303<f64>> {
    let mut cursor = cursor;
    let mut found = Vec::new();
    while let Some(row) = cursor.next() {
        found.push(clone_data202303(row));
    }
    found
}

#[test]
fn save_manual_inputs_enrich_existing_data() {
    let mut w: AppState<f64> = AppState::default();
    w.data.push(Data202303::<f64> {
        timestamp: 1000,
        pv2012_kWh: None,
        pv2022_kWh: Some(123.45),
        peak_conso_kWh: Some(234.56),
        off_conso_kWh: Some(345.67),
        peak_inj_kWh: Some(456.78),
        off_inj_kWh: Some(567.89),
        gas_m3: None,
        water_m3: None,
    });
    w.data.push(Data202303::<f64> {
        timestamp: 1045,
        pv2012_kWh: None,
        pv2022_kWh: Some(23.45),
        peak_conso_kWh: Some(34.56),
        off_conso_kWh: Some(45.67),
        peak_inj_kWh: Some(56.78),
        off_inj_kWh: Some(67.89),
        gas_m3: None,
        water_m3: None,
    });
    w.data.push(Data202303::<f64> {
        timestamp: 1062,
        pv2012_kWh: None,
        pv2022_kWh: Some(234.5),
        peak_conso_kWh: Some(345.6),
        off_conso_kWh: Some(456.7),
        peak_inj_kWh: Some(567.8),
        off_inj_kWh: Some(678.9),
        gas_m3: None,
        water_m3: None,
    });
    w.data.push(Data202303::<f64> {
        timestamp: 1118,
        pv2012_kWh: None,
        pv2022_kWh: Some(2.345),
        peak_conso_kWh: Some(3.456),
        off_conso_kWh: Some(4.567),
        peak_inj_kWh: Some(5.678),
        off_inj_kWh: Some(6.789),
        gas_m3: None,
        water_m3: None,
    });
    w.data.push(Data202303::<f64> {
        timestamp: 2000,
        pv2012_kWh: Some(111.0),
        pv2022_kWh: None,
        peak_conso_kWh: None,
        off_conso_kWh: None,
        peak_inj_kWh: None,
        off_inj_kWh: None,
        gas_m3: None,
        water_m3: None,
    });
    save_manual_inputs(
        &mut w,
        DateTime::from_timestamp_nanos(1060 * 1_000_000_000).timestamp(),
        Some(2.0),
        Some(3.0),
        Some(4.0),
    );
    w.data.with_view(|vw| {
        assert_eq!(
            rows(vw.into_iter()),
            vec![
                Data202303::<f64> {
                    timestamp: 1000,
                    pv2012_kWh: None,
                    pv2022_kWh: Some(123.45),
                    peak_conso_kWh: Some(234.56),
                    off_conso_kWh: Some(345.67),
                    peak_inj_kWh: Some(456.78),
                    off_inj_kWh: Some(567.89),
                    gas_m3: None,
                    water_m3: None
                },
                Data202303::<f64> {
                    timestamp: 1045,
                    pv2012_kWh: None,
                    pv2022_kWh: Some(23.45),
                    peak_conso_kWh: Some(34.56),
                    off_conso_kWh: Some(45.67),
                    peak_inj_kWh: Some(56.78),
                    off_inj_kWh: Some(67.89),
                    gas_m3: None,
                    water_m3: None
                },
                Data202303::<f64> {
                    timestamp: 1062,
                    pv2012_kWh: Some(2.0),
                    pv2022_kWh: Some(234.5),
                    peak_conso_kWh: Some(345.6),
                    off_conso_kWh: Some(456.7),
                    peak_inj_kWh: Some(567.8),
                    off_inj_kWh: Some(678.9),
                    gas_m3: Some(3.0),
                    water_m3: Some(4.0)
                },
                Data202303::<f64> {
                    timestamp: 1118,
                    pv2012_kWh: None,
                    pv2022_kWh: Some(2.345),
                    peak_conso_kWh: Some(3.456),
                    off_conso_kWh: Some(4.567),
                    peak_inj_kWh: Some(5.678),
                    off_inj_kWh: Some(6.789),
                    gas_m3: None,
                    water_m3: None
                },
                Data202303::<f64> {
                    timestamp: 2000,
                    pv2012_kWh: Some(111.0),
                    pv2022_kWh: None,
                    peak_conso_kWh: None,
                    off_conso_kWh: None,
                    peak_inj_kWh: None,
                    off_inj_kWh: None,
                    gas_m3: None,
                    water_m3: None
                },
            ]
        )
    })
}

#[test]
fn save_manual_inputs_parameterized() {
    struct Case {
        name: &'static str,
        existing: Vec<Data202303<f64>>,
        input_ts: i64,
        input_pv2012: Option<f64>,
        input_gas: Option<f64>,
        input_water: Option<f64>,
        expected: Vec<Data202303<f64>>,
    }

    let cases: Vec<Case> = vec![
        Case {
            name: "insert_into_empty",
            existing: vec![],
            input_ts: 1000,
            input_pv2012: Some(1.0),
            input_gas: Some(2.0),
            input_water: Some(3.0),
            expected: vec![Data202303::<f64> {
                timestamp: 1000,
                pv2012_kWh: Some(1.0),
                pv2022_kWh: None,
                peak_conso_kWh: None,
                off_conso_kWh: None,
                peak_inj_kWh: None,
                off_inj_kWh: None,
                gas_m3: Some(2.0),
                water_m3: Some(3.0),
            }],
        },
        Case {
            name: "insert_before_first",
            existing: vec![Data202303::<f64> {
                timestamp: 2000,
                pv2012_kWh: None,
                pv2022_kWh: None,
                peak_conso_kWh: None,
                off_conso_kWh: Some(3.14),
                peak_inj_kWh: None,
                off_inj_kWh: None,
                gas_m3: None,
                water_m3: None,
            }],
            input_ts: 1000,
            input_pv2012: Some(9.0),
            input_gas: None,
            input_water: None,
            expected: vec![
                Data202303::<f64> {
                    timestamp: 1000,
                    pv2012_kWh: Some(9.0),
                    pv2022_kWh: None,
                    peak_conso_kWh: None,
                    off_conso_kWh: None,
                    peak_inj_kWh: None,
                    off_inj_kWh: None,
                    gas_m3: None,
                    water_m3: None,
                },
                Data202303::<f64> {
                    timestamp: 2000,
                    pv2012_kWh: None,
                    pv2022_kWh: None,
                    peak_conso_kWh: None,
                    off_conso_kWh: Some(3.14),
                    peak_inj_kWh: None,
                    off_inj_kWh: None,
                    gas_m3: None,
                    water_m3: None,
                },
            ],
        },
        Case {
            name: "insert_after_last",
            existing: vec![Data202303::<f64> {
                timestamp: 1000,
                pv2012_kWh: None,
                pv2022_kWh: None,
                peak_conso_kWh: None,
                off_conso_kWh: None,
                peak_inj_kWh: None,
                off_inj_kWh: None,
                gas_m3: None,
                water_m3: None,
            }],
            input_ts: 2000,
            input_pv2012: None,
            input_gas: Some(7.0),
            input_water: Some(8.0),
            expected: vec![
                Data202303::<f64> {
                    timestamp: 1000,
                    pv2012_kWh: None,
                    pv2022_kWh: None,
                    peak_conso_kWh: None,
                    off_conso_kWh: None,
                    peak_inj_kWh: None,
                    off_inj_kWh: None,
                    gas_m3: None,
                    water_m3: None,
                },
                Data202303::<f64> {
                    timestamp: 2000,
                    pv2012_kWh: None,
                    pv2022_kWh: None,
                    peak_conso_kWh: None,
                    off_conso_kWh: None,
                    peak_inj_kWh: None,
                    off_inj_kWh: None,
                    gas_m3: Some(7.0),
                    water_m3: Some(8.0),
                },
            ],
        },
        Case {
            name: "update_exact_match (single pre-existing element)",
            existing: vec![Data202303::<f64> {
                timestamp: 1500,
                pv2012_kWh: None,
                pv2022_kWh: Some(42.0),
                peak_conso_kWh: None,
                off_conso_kWh: None,
                peak_inj_kWh: None,
                off_inj_kWh: None,
                gas_m3: None,
                water_m3: None,
            }],
            input_ts: 1500,
            input_pv2012: Some(10.0),
            input_gas: Some(20.0),
            input_water: Some(30.0),
            expected: vec![Data202303::<f64> {
                timestamp: 1500,
                pv2012_kWh: Some(10.0),
                pv2022_kWh: Some(42.0), // preserved
                peak_conso_kWh: None,
                off_conso_kWh: None,
                peak_inj_kWh: None,
                off_inj_kWh: None,
                gas_m3: Some(20.0),
                water_m3: Some(30.0),
            }],
        },
        Case {
            name: "update_exact_match (2 pre-existing elements)",
            existing: vec![
                Data202303::<f64> {
                    timestamp: 1498,
                    pv2012_kWh: None,
                    pv2022_kWh: Some(41.0),
                    peak_conso_kWh: None,
                    off_conso_kWh: None,
                    peak_inj_kWh: None,
                    off_inj_kWh: None,
                    gas_m3: None,
                    water_m3: None,
                },
                Data202303::<f64> {
                    timestamp: 1500,
                    pv2012_kWh: None,
                    pv2022_kWh: Some(42.0),
                    peak_conso_kWh: Some(43.0),
                    off_conso_kWh: Some(44.0),
                    peak_inj_kWh: Some(45.0),
                    off_inj_kWh: Some(46.0),
                    gas_m3: None,
                    water_m3: None,
                },
            ],
            input_ts: 1500,
            input_pv2012: Some(10.0),
            input_gas: Some(20.0),
            input_water: Some(30.0),
            expected: vec![
                Data202303::<f64> {
                    timestamp: 1498,
                    pv2012_kWh: None,
                    pv2022_kWh: Some(41.0),
                    peak_conso_kWh: None,
                    off_conso_kWh: None,
                    peak_inj_kWh: None,
                    off_inj_kWh: None,
                    gas_m3: None,
                    water_m3: None,
                },
                Data202303::<f64> {
                    timestamp: 1500,
                    pv2012_kWh: Some(10.0),
                    pv2022_kWh: Some(42.0),     // preserved
                    peak_conso_kWh: Some(43.0), // preserved
                    off_conso_kWh: Some(44.0),  // preserved
                    peak_inj_kWh: Some(45.0),   // preserved
                    off_inj_kWh: Some(46.0),    // preserved
                    gas_m3: Some(20.0),
                    water_m3: Some(30.0),
                },
            ],
        },
        Case {
            name: "update_exact_match (3 pre-existing elements)",
            existing: vec![
                Data202303::<f64> {
                    timestamp: 1498,
                    pv2012_kWh: None,
                    pv2022_kWh: Some(41.0),
                    peak_conso_kWh: None,
                    off_conso_kWh: None,
                    peak_inj_kWh: None,
                    off_inj_kWh: None,
                    gas_m3: None,
                    water_m3: None,
                },
                Data202303::<f64> {
                    timestamp: 1500,
                    pv2012_kWh: None,
                    pv2022_kWh: Some(42.0),
                    peak_conso_kWh: Some(43.0),
                    off_conso_kWh: Some(44.0),
                    peak_inj_kWh: Some(45.0),
                    off_inj_kWh: Some(46.0),
                    gas_m3: None,
                    water_m3: None,
                },
                Data202303::<f64> {
                    timestamp: 1501,
                    pv2012_kWh: None,
                    pv2022_kWh: Some(42.1),
                    peak_conso_kWh: Some(43.1),
                    off_conso_kWh: Some(44.1),
                    peak_inj_kWh: Some(45.1),
                    off_inj_kWh: Some(46.1),
                    gas_m3: None,
                    water_m3: None,
                },
            ],
            input_ts: 1500,
            input_pv2012: Some(10.0),
            input_gas: Some(20.0),
            input_water: Some(30.0),
            expected: vec![
                Data202303::<f64> {
                    timestamp: 1498,
                    pv2012_kWh: None,
                    pv2022_kWh: Some(41.0),
                    peak_conso_kWh: None,
                    off_conso_kWh: None,
                    peak_inj_kWh: None,
                    off_inj_kWh: None,
                    gas_m3: None,
                    water_m3: None,
                },
                Data202303::<f64> {
                    timestamp: 1500,
                    pv2012_kWh: Some(10.0),
                    pv2022_kWh: Some(42.0),     // preserved
                    peak_conso_kWh: Some(43.0), // preserved
                    off_conso_kWh: Some(44.0),  // preserved
                    peak_inj_kWh: Some(45.0),   // preserved
                    off_inj_kWh: Some(46.0),    // preserved
                    gas_m3: Some(20.0),
                    water_m3: Some(30.0),
                },
                Data202303::<f64> {
                    timestamp: 1501,
                    pv2012_kWh: None,
                    pv2022_kWh: Some(42.1),
                    peak_conso_kWh: Some(43.1),
                    off_conso_kWh: Some(44.1),
                    peak_inj_kWh: Some(45.1),
                    off_inj_kWh: Some(46.1),
                    gas_m3: None,
                    water_m3: None,
                },
            ],
        },
        Case {
            name: "insert_no_close_match_more_than_60s_away",
            existing: vec![Data202303::<f64> {
                timestamp: 1000,
                pv2012_kWh: None,
                pv2022_kWh: Some(1.23),
                peak_conso_kWh: None,
                off_conso_kWh: None,
                peak_inj_kWh: None,
                off_inj_kWh: None,
                gas_m3: None,
                water_m3: None,
            }],
            input_ts: 1200, // 200s away, should insert
            input_pv2012: Some(9.0),
            input_gas: Some(8.0),
            input_water: Some(7.0),
            expected: vec![
                Data202303::<f64> {
                    timestamp: 1000,
                    pv2012_kWh: None,
                    pv2022_kWh: Some(1.23),
                    peak_conso_kWh: None,
                    off_conso_kWh: None,
                    peak_inj_kWh: None,
                    off_inj_kWh: None,
                    gas_m3: None,
                    water_m3: None,
                },
                Data202303::<f64> {
                    timestamp: 1200,
                    pv2012_kWh: Some(9.0),
                    pv2022_kWh: None,
                    peak_conso_kWh: None,
                    off_conso_kWh: None,
                    peak_inj_kWh: None,
                    off_inj_kWh: None,
                    gas_m3: Some(8.0),
                    water_m3: Some(7.0),
                },
            ],
        },
        Case {
            name: "update_when_exactly_60s_apart",
            existing: vec![Data202303::<f64> {
                timestamp: 1000,
                pv2012_kWh: None,
                pv2022_kWh: Some(55.0),
                peak_conso_kWh: None,
                off_conso_kWh: None,
                peak_inj_kWh: None,
                off_inj_kWh: None,
                gas_m3: None,
                water_m3: None,
            }],
            input_ts: 1060, // exactly 60s away
            input_pv2012: Some(1.0),
            input_gas: Some(2.0),
            input_water: Some(3.0),
            expected: vec![Data202303::<f64> {
                timestamp: 1000,
                pv2012_kWh: Some(1.0),
                pv2022_kWh: Some(55.0),
                peak_conso_kWh: None,
                off_conso_kWh: None,
                peak_inj_kWh: None,
                off_inj_kWh: None,
                gas_m3: Some(2.0),
                water_m3: Some(3.0),
            }],
        },
        Case {
            name: "update_earlier_of_two_candidates",
            existing: vec![
                Data202303::<f64> {
                    timestamp: 940,
                    pv2012_kWh: None,
                    pv2022_kWh: Some(10.0),
                    peak_conso_kWh: None,
                    off_conso_kWh: None,
                    peak_inj_kWh: None,
                    off_inj_kWh: None,
                    gas_m3: None,
                    water_m3: None,
                },
                Data202303::<f64> {
                    timestamp: 1060,
                    pv2012_kWh: None,
                    pv2022_kWh: Some(20.0),
                    peak_conso_kWh: None,
                    off_conso_kWh: None,
                    peak_inj_kWh: None,
                    off_inj_kWh: None,
                    gas_m3: None,
                    water_m3: None,
                },
            ],
            input_ts: 1000, // equally 60s away from 940 and 1060
            input_pv2012: Some(9.0),
            input_gas: Some(8.0),
            input_water: Some(7.0),
            expected: vec![
                Data202303::<f64> {
                    timestamp: 940,
                    pv2012_kWh: Some(9.0), // should update earliest
                    pv2022_kWh: Some(10.0),
                    peak_conso_kWh: None,
                    off_conso_kWh: None,
                    peak_inj_kWh: None,
                    off_inj_kWh: None,
                    gas_m3: Some(8.0),
                    water_m3: Some(7.0),
                },
                Data202303::<f64> {
                    timestamp: 1060,
                    pv2012_kWh: None,
                    pv2022_kWh: Some(20.0),
                    peak_conso_kWh: None,
                    off_conso_kWh: None,
                    peak_inj_kWh: None,
                    off_inj_kWh: None,
                    gas_m3: None,
                    water_m3: None,
                },
            ],
        },
    ];

    for case in cases {
        let mut w: AppState<f64> = AppState::default();
        for d in &case.existing {
            w.data.push(clone_data202303(d));
        }

        save_manual_inputs(
            &mut w,
            DateTime::from_timestamp_nanos(case.input_ts * 1_000_000_000).timestamp(),
            case.input_pv2012,
            case.input_gas,
            case.input_water,
        );

        w.data.with_view(|vw| {
            let got = rows(vw.into_iter());
            assert_eq!(got, case.expected, "failed case: {}", case.name);
        });
    }
}
