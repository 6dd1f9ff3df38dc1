use ppgg::reading::{is_supported_csq, return_if_supported};

#[test]
fn test_is_supported() {
        let test_case1="intron|FAM20C||protein_coding";
        let test_case2="synonymous|FAM20C|ENST00000313766|protein_coding|+|435Y|256705C>T";
        let test_case3="missense|FAM20C|ENST00000313766|protein_coding|+|440R>440C|256718C>T";
        let test_case4="non_coding|FAM20C||retained_intron";
        let test_case5="splice_region|FAM20C|ENST00000313766|protein_coding";
        let test_case6="@246435";
        let test_case7="missense|FAM20C|ENST00000313766|protein_coding|+|13I>13F|193236A>T";
        let test_case8="*missense|FAM20C|ENST00000313766|protein_coding|+|564N>564D|259915A>G";
        let test_case9="inframe_insertion|FOXL3|ENST00000506382|protein_coding|+|125Y>125YR|291161CCGGCGG>CCGGCGGCGG";
        let test_case10="*inframe_insertion|TMEM184A|ENST00000297477|protein_coding|-|393S>393GS|1547017A>AGCC";
        let test_case11="inframe_deletion|FAM20C|ENST00000313766|protein_coding|+|72AASS>72A|193413GCCGCCTCCT>G";
        let test_case12="*inframe_deletion|FAM20C|ENST00000313766|protein_coding|+|72AASS>72A|193413GCCGCCTCCT>G";
        let test_case13="frameshift|FOXL3|ENST00000506382|protein_coding|+|226VGLHFWTM*>226VDSTFGQC|291463TG>T";
        let test_case14="*frameshift|FOXL3|ENST00000506382|protein_coding|+|226VGLHFWTM*>226VDSTFGQC|291463TG>T";
        let test_case15="stop_gained|FAM20C|ENST00000313766|protein_coding|+|115E>115*|193542G>T";
        let test_case16="stop_gained|FAM20C|ENST00000313766|protein_coding|+|115E>115*|193542G>T";
        let test_case17="stop_lost|FOXL3|ENST00000506382|protein_coding|+|232TM*>232T|291482AATGTG>A"; 
        // check that the function returned the correct results 
        assert_eq!(is_supported_csq(test_case1),false);
        assert_eq!(is_supported_csq(test_case2),false);
        assert_eq!(is_supported_csq(test_case3),true);
        assert_eq!(is_supported_csq(test_case4),false);
        assert_eq!(is_supported_csq(test_case5),false);
        assert_eq!(is_supported_csq(test_case6),false);
        assert_eq!(is_supported_csq(test_case7),true);
        assert_eq!(is_supported_csq(test_case8),true);
        assert_eq!(is_supported_csq(test_case9),true);
        assert_eq!(is_supported_csq(test_case10),true);
        assert_eq!(is_supported_csq(test_case11),true);
        assert_eq!(is_supported_csq(test_case12),true);
        assert_eq!(is_supported_csq(test_case13),true);
        assert_eq!(is_supported_csq(test_case14),true);
        assert_eq!(is_supported_csq(test_case15),true);
        assert_eq!(is_supported_csq(test_case16),true);
        assert_eq!(is_supported_csq(test_case17),true);
    }

#[test]
fn test_return_if_supported_case_1() {
        let line="7\t193236\t7_193236_A_T\tA\tT\t1789\tPASS\tAF=2.5e-05;AQ=1789;ExcessHet=3.0103;QD=15.29;AC=1;AN=32920;BCSQ=missense|FAM20C|ENST00000313766|protein_coding|+|13I>13F|193236A>T\tGT:AB:AD:DP:GQ:PL:RNC:SBPV:BCSQ 0|0:.:79,0:79:99:.:.:.:0\t0|0:.:76,0:76:99:.:.:.:0\t0|0:.:84,0:84:99:.:.:.:0".to_string(); 
        assert_eq!(true, return_if_supported(&line));
    }

#[test]
fn test_return_if_supported_case_2() {
        let lines_okay=vec![
            "7\t193407\t7_193407_C_A\tC\tA\t1495\tPASS\tAF=2.5e-05;AQ=1495;ExcessHet=3.0103;QD=14.24;AC=1;AN=32920;BCSQ=missense|FAM20C|ENST00000313766|protein_coding|+|70P>70T|193407C>A\tGT:AB:AD:DP:GQ:PL:RNC:SBPV:BCSQ 0|0:.:87,0:87:99:.:.:.:0\t0|0:.:66,0:66:99:.:.:.:0\t0|0:.:108,0:108:99:.:.:.:0\t0|0:.:68,0:68:99:.:.:.:0".to_string(), 
            "7\t291463\t7_291463_TG_T;7_291463_T_G\tTG\tT,GG\t2121\tPASS\tAF=2.5e-05,2.5e-05;AQ=2121,1818;QD=10.2;AC=1,0;AN=32920;BCSQ=frameshift|FOXL3|ENST00000506382|protein_coding|+|226VGLHFWTM*>226VDSTFGQC|291463TG>T,frameshift|FOXL3|ENST00000510017|NMD|+|40VGLHFWTM*>40VDSTFGQC|291463TG>T\tGT:AB:AD:DP:GQ:RNC:SBPV:BCSQ\t0|0:.:16,0,0:16:39:.:.,0:0\t0|0:.:69,0,0:69:99:.:.,0:0\t0|0:.:60,0,0:60:98:.:.,0:0\t0|0:.:65,0,0:65:99:.:.,0:0".to_string(),
            "7\t12342095\t7_12342095_AC_A\tAC\tA\t1259\tPASS\tAC=4;AF=0.000177;AN=32918;AQ=1259;ExcessHet=22.7857;QD=3.84;BCSQ=3_prime_utr|VWDE|ENST00000521169|NMD,3_prime_utr|VWDE|ENST00000452576|NMD,@12351642,*frameshift|VWDE|ENST00000275358|protein_coding|-|1411QCKPGWYGPTCSTALCDPVCLNGGSCNKPNTCLCPNGFFGEHCQNAFCHPPCKNGGHCMRNNVCVCREGYTGRRFQKSICDPTCMNGGKCVGPSTCSCPSGWSGKRCNTPICLQKCKNGGECIAPSICHCPSSWEGVRCQIPICNPKCLYGGRCIFPNVCSCRTEYSGVKCEKKIQIRRH*>1411HANLAGMDPPVVQLCVTLSASMVVRVISQILASVQMDSLGNTVRMLSVTLPVRMVATA*|12337185A>C+12340410G>A+12342095AC>A,frameshift|VWDE|ENST00000275358|protein_coding|-|1411QCKPGWYGPTCSTALCDPVCLNGGSCNKPNTCLCPNGFFGEHCQNAFCHPPCKNGGHCMRNNVCVCREGYTGRRFQKSICDPTCMNGGKCVGPSTCSCPSGWSGKRCNTPICLQKCKNGGECIAPSICHCPSSWEGVRCQIPICNPKCLYGGRCIFPNVCSCRTEYSGVKCEKKIQIRRH*>1411HANLAGMDPPVVQLCATLSASMVVRVISQILASVQMDSLGNTVRMLSVTLPVRMVATA*|12337185A>C+12342095AC>A,frameshift|VWDE|ENST00000614403|protein_coding|-|865QCKPGWYGPTCSTALCDPVCLNGGSCNKPNTCLCPNGFFGEHCQNAFCHPPCKNGGHCMRNNVCVCREGYTGRRFQKRHL*>865HANLAGMDPPVVQLCVTLSASMVVRVISQILASVQMDSLGNTVRMLSVTLPVRMVATA*|12337185A>C+12340410G>A+12342095AC>A,frameshift|VWDE|ENST00000614403|protein_coding|-|865QCKPGWYGPTCSTALCDPVCLNGGSCNKPNTCLCPNGFFGEHCQNAFCHPPCKNGGHCMRNNVCVCREGYTGRRFQKRHL*>865HANLAGMDPPVVQLCATLSASMVVRVISQILASVQMDSLGNTVRMLSVTLPVRMVATA*|12337185A>C+12342095AC>A\tGT:AB:AD:DP:FT:GQ:PL:RNC:SBPV:BCSQ\t0|0:.:45,0:45:PASS:82:.:.:.:0\t0|0:.:48,0:48:PASS:85:.:.:.:0\t0|0:.:47,0:47:PASS:84:.:.:.:0\t0|0:.:57,0:57:PASS:95:.:.:.:0".to_string()
        ]; 
        for line in lines_okay
        {
            assert_eq!(true, return_if_supported(&line));
        }
        let lines_bad=vec![
            "7\t2250000\t7_2250000_A_C\tA\tC\t2001\tPASS\tAF=2.5e-05;AQ=2001;ExcessHet=3.0103;QD=24.11;AC=1;AN=32920;BCSQ=splice_region|NUDT1|ENST00000356714|protein_coding,splice_region|NUDT1|ENST00000397046|protein_coding,splice_region|NUDT1|ENST00000397048|protein_coding,splice_region|NUDT1|ENST00000343985|protein_coding,splice_region|NUDT1|ENST00000339737|protein_coding,splice_region|NUDT1|ENST00000397049|protein_coding,@2249999\tGT:AB:AD:DP:GQ:PL:RNC:SBPV:BCSQ 0|0:.:15,0:15:37:.:.:.:0\t0|0:.:19,0:19:44:.:.:.:0\t0|0:.:16,0:16:39:.:.:.:0\t0|0:.:33,0:33:67:.:.:.:0".to_string(),
            "7\t4785683 7_4785683_C_T\tC\tT\t3000\tPASS\tAC=2231;AF=0.069;AN=32918;AQ=3000;ExcessHet=160;QD=0.02;BCSQ=splice_region|AP5Z1|ENST00000649063|protein_coding,splice_region|AP5Z1|ENST00000650310|NMD,splice_region|AP5Z1|ENST00000648925|NMD,splice_region|AP5Z1|ENST00000649315|NMD,splice_region&3_prime_utr|AP5Z1|ENST00000647984|NMD,synonymous|AP5Z1|ENST00000649315|NMD|+|113H|4785683C>T,@4785616,*synonymous|AP5Z1|ENST00000650310|NMD|+|377H|4785683C>T,*synonymous|AP5Z1|ENST00000648925|NMD|+|377H|4785683C>T,*synonymous|AP5Z1|ENST00000649063|protein_coding|+|377H|4785683C>T\tGT:AB:AD:DP:FT:GQ:PL:RNC:SBPV:BCSQ\t0|0:.:43,0:43:PASS:80:.:.:.:0\t0|0:.:45,0:45:PASS:82:.:.:.:0\t0|0:.:15,0:15:PASS:37:.:.:.:0\t0|0:.:40,0:40:PASS:76:.:.:.:0".to_string(),
            "7\t22976212\t7_22976212_T_C\tT\tC\t1445\tPASS\tAC=10836;AF=0.339;AN=31922;AQ=1445;ExcessHet=160;QD=0.01;BCSQ=splice_region|FAM126A|ENST00000432176|protein_coding,splice_region|FAM126A|ENST00000440481|protein_coding,splice_region|FAM126A|ENST00000409923|protein_coding,*synonymous|FAM126A|ENST00000409923|protein_coding|-|208S|22976212T>C,@22976776,*synonymous|FAM126A|ENST00000432176|protein_coding|-|208S|22976212T>C,*synonymous|FAM126A|ENST00000440481|protein_coding|-|259S|22976212T>C\tGT:AB:AD:DP:FT:GQ:PL:RNC:SBPV:BCSQ\t0|1:0.555556:5,5:9:PASS:99:127,0,127:.:.:10410\t0|1:0.631579:12,7:19:PASS:99:209,0,324:..:0.6906:10410\t0|0:.:20,0:20:PASS:46:.:.:.:0\t0|1:0.461538:6,7:13:PASS:99:209,0,186:.:.:10410".to_string()
        ];
        for line in lines_bad
        {
            assert_eq!(false, return_if_supported(&line));
        }
    }
